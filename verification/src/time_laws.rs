//! What becomes of time, said of whole numbers; and what happens as it goes by.
use vstd::arithmetic::power2::lemma2_to64;
use vstd::arithmetic::power2::lemma2_to64_rest;
use vstd::arithmetic::power2::lemma_pow2_pos;
use vstd::arithmetic::power2::lemma_pow2_unfold;
use vstd::arithmetic::power2::pow2;
use vstd::prelude::*;

use crate::parser::SessionView;
use crate::state::Event;
use crate::summary::SummaryView;

verus! {

// ---------------------------------------------------------------------------------------------
// Rounding
// ---------------------------------------------------------------------------------------------

/// The distance of numbers with 53 significant bits is a power of two: 1 for those below two to the
/// power of 53, else the one by which the number has 53 binary digits.
pub proof fn law_grain(size: nat)
    ensures
        exists|k: nat| crate::seconds::grain(size) == #[trigger] pow2(k),
        size < 0x20_0000_0000_0000 ==> crate::seconds::grain(size) == 1,
        size >= 0x20_0000_0000_0000 ==> 0x10_0000_0000_0000 * crate::seconds::grain(size) <= size
            < 0x20_0000_0000_0000 * crate::seconds::grain(size),
    decreases size,
{
    crate::seconds::lemma_grain(size);
    lemma2_to64();
    if size >= 0x20_0000_0000_0000 {
        law_grain(size / 2);
        let k = choose|k: nat| crate::seconds::grain(size / 2) == #[trigger] pow2(k);
        lemma_pow2_unfold(k + 1);
        assert(crate::seconds::grain(size) == pow2(k + 1));
        crate::seconds::lemma_grain(size / 2);
    } else {
        assert(crate::seconds::grain(size) == pow2(0));
    }
}

/// A number is rounded to a multiple of the step that is no further than half a step away; from the
/// middle between two, to the even one.
pub proof fn law_nearest(size: nat, step: nat, q: nat)
    requires
        step >= 1,
    ensures
        (crate::seconds::nearest(size, step) == q * step) == (2 * (q * step) - step < 2 * size < 2
            * (q * step) + step || (q % 2 == 0 && (2 * size == 2 * (q * step) + step || 2 * size
            == 2 * (q * step) - step))),
{
    let n = size / step;
    let r = size % step;
    vstd::arithmetic::div_mod::lemma_fundamental_div_mod(size as int, step as int);
    vstd::arithmetic::div_mod::lemma_mod_bound(size as int, step as int);
    assert(size == n * step + r) by {
        assert(step * n == n * step) by (nonlinear_arith);
    }
    assert((n + 1) * step == n * step + step) by (nonlinear_arith);
    if q < n {
        assert((q + 1) * step <= n * step) by (nonlinear_arith)
            requires
                q + 1 <= n,
                step >= 1,
        ;
        assert((q + 1) * step == q * step + step) by (nonlinear_arith);
    } else if q > n + 1 {
        assert((n + 2) * step <= q * step) by (nonlinear_arith)
            requires
                n + 2 <= q,
                step >= 1,
        ;
        assert((n + 2) * step == n * step + 2 * step) by (nonlinear_arith);
    }
}

/// What is below zero is rounded as what is above it.
pub proof fn law_rounded(size: nat)
    ensures
        crate::seconds::rounded(size as int) == crate::seconds::nearest(
            size,
            crate::seconds::grain(size),
        ),
        crate::seconds::rounded(-(size as int)) == -crate::seconds::rounded(size as int),
{
    if size == 0 {
        assert(crate::seconds::grain(0) == 1);
        assert(crate::seconds::nearest(0, 1) == 0);
    }
}

proof fn lemma_grain_divides(m: nat, k: nat) -> (q: nat)
    requires
        m <= 0x20_0000_0000_0000,
    ensures
        m * pow2(k) == q * crate::seconds::grain(m * pow2(k)),
    decreases k,
{
    let size = m * pow2(k);
    lemma2_to64();
    if size < 0x20_0000_0000_0000 {
        assert(crate::seconds::grain(size) == 1);
        assert(size * 1 == size);
        size
    } else if k == 0 {
        assert(size == m * 1);
        assert(m == 0x20_0000_0000_0000);
        assert(crate::seconds::grain(0x10_0000_0000_0000) == 1);
        assert(size / 2 == 0x10_0000_0000_0000);
        assert(crate::seconds::grain(size) == 2);
        0x10_0000_0000_0000
    } else {
        let half = m * pow2((k - 1) as nat);
        lemma_pow2_unfold(k);
        assert(size == 2 * half) by (nonlinear_arith)
            requires
                size == m * pow2(k),
                half == m * pow2((k - 1) as nat),
                pow2(k) == 2 * pow2((k - 1) as nat),
        ;
        let q = lemma_grain_divides(m, (k - 1) as nat);
        let g = crate::seconds::grain(half);
        assert(size / 2 == half);
        assert(crate::seconds::grain(size) == 2 * g);
        assert(2 * (q * g) == q * (2 * g)) by (nonlinear_arith);
        q
    }
}

proof fn lemma_kept(size: nat, m: nat, k: nat)
    requires
        m <= 0x20_0000_0000_0000,
        size == m * pow2(k),
    ensures
        crate::seconds::rounded(size as int) == size,
        crate::seconds::rounded(-(size as int)) == -size,
{
    let q = lemma_grain_divides(m, k);
    let g = crate::seconds::grain(size);
    crate::seconds::lemma_grain(size);
    law_nearest(size, g, q);
    law_rounded(size);
}

/// A length of time that has 53 significant bits, and no more, is exact, forwards and backwards.
pub proof fn law_age_is_exact(start: int, now: int, m: nat, k: nat)
    requires
        m <= 0x20_0000_0000_0000,
        now - start == m * pow2(k),
        now - start <= 0x7fff_ffff_ffff_ffff_ffff_ffff_ffff_ffff,
    ensures
        crate::seconds::age(start, now) == now - start,
        crate::seconds::age(now, start) == start - now,
{
    lemma_kept((now - start) as nat, m, k);
}

/// The time from one point to another is off by no more than one part in two to the power of 53.
pub proof fn law_age_is_near(start: int, now: int)
    requires
        0 <= now - start <= 0x4000_0000_0000_0000_0000_0000_0000_0000,
    ensures
        0x20_0000_0000_0000 * (crate::seconds::age(start, now) - (now - start)) <= now - start,
        0x20_0000_0000_0000 * ((now - start) - crate::seconds::age(start, now)) <= now - start,
        crate::seconds::age(now, start) == -crate::seconds::age(start, now),
        now - start < 0x20_0000_0000_0000 ==> crate::seconds::age(start, now) == now - start,
{
    let size = (now - start) as nat;
    let g = crate::seconds::grain(size);
    let r = crate::seconds::nearest(size, g);
    let q = size / g;
    let rest = size % g;
    law_grain(size);
    crate::seconds::lemma_grain(size);
    law_rounded(size);
    vstd::arithmetic::div_mod::lemma_fundamental_div_mod(size as int, g as int);
    vstd::arithmetic::div_mod::lemma_mod_bound(size as int, g as int);
    assert(size == q * g + rest) by {
        assert(g * q == q * g) by (nonlinear_arith);
    }
    assert((q + 1) * g == q * g + g) by (nonlinear_arith);
    assert(2 * (r - size) <= g && 2 * (size - r) <= g);
    if g == 1 {
        assert(r == size);
    }
    assert(r <= size + g);
    assert(g <= size || g == 1);
}

/// The time from one point to another is the nearest number with 53 significant bits, and so is any
/// number of ticks that is computed.
pub proof fn law_age_is_rounded(start: int, now: int)
    requires
        0 <= now - start <= 0x4000_0000_0000_0000_0000_0000_0000_0000,
    ensures
        ({
            let size = (now - start) as nat;
            let found = crate::seconds::nearest(size, crate::seconds::grain(size));
            &&& crate::seconds::age(start, now) == found
            &&& crate::seconds::age(now, start) == -found
            &&& crate::seconds::double_near(now - start) == found
            &&& crate::seconds::double_near(start - now) == -found
        }),
{
    let size = (now - start) as nat;
    law_age_is_near(start, now);
    law_rounded(size);
    lemma_in_range(size);
}

proof fn lemma_in_range(size: nat)
    requires
        size <= 0x4000_0000_0000_0000_0000_0000_0000_0000,
    ensures
        crate::seconds::nearest(size, crate::seconds::grain(size))
            <= 0x7fff_ffff_ffff_ffff_ffff_ffff_ffff_ffff,
{
    let g = crate::seconds::grain(size);
    crate::seconds::lemma_grain(size);
    let q = size / g;
    vstd::arithmetic::div_mod::lemma_fundamental_div_mod(size as int, g as int);
    assert(g * q == q * g) by (nonlinear_arith);
    assert((q + 1) * g == q * g + g) by (nonlinear_arith);
    vstd::arithmetic::div_mod::lemma_mod_bound(size as int, g as int);
    assert(g <= size || g == 1);
    assert(g == 1 || g * 0x10_0000_0000_0000 <= size);
}

/// A length of time that is too long to be held is held as the longest that can be.
pub proof fn law_age_saturates(start: int, now: int)
    requires
        now - start >= 0x7fff_ffff_ffff_ffff_ffff_ffff_ffff_ffff,
    ensures
        crate::seconds::age(start, now) == 0x7fff_ffff_ffff_ffff_ffff_ffff_ffff_ffff,
        crate::seconds::age(now, start) == -0x7fff_ffff_ffff_ffff_ffff_ffff_ffff_ffff,
{
    let top: nat = 0x7fff_ffff_ffff_ffff_ffff_ffff_ffff_ffff;
    let g = crate::seconds::grain(top);
    law_grain(top);
    let k = choose|k: nat| g == #[trigger] pow2(k);
    lemma2_to64();
    vstd::arithmetic::power2::lemma_pow2_adds(64, 9);
    vstd::arithmetic::power2::lemma_pow2_adds(64, 10);
    vstd::arithmetic::power2::lemma_pow2_adds(64, 11);
    assert(pow2(73) == 0x200_0000_0000_0000_0000);
    assert(pow2(74) == 0x400_0000_0000_0000_0000);
    assert(pow2(75) == 0x800_0000_0000_0000_0000);
    if k < 73 {
        vstd::arithmetic::power2::lemma_pow2_strictly_increases(k, 73);
    }
    if k > 75 {
        vstd::arithmetic::power2::lemma_pow2_strictly_increases(75, k);
    }
    assert(k == 74);
    law_nearest(top, g, 0x20_0000_0000_0000);
    law_rounded(top);
}

/// Whole milliseconds are those that are over in the thousandfold of a time, rounded; what is below
/// zero is as what is above it.
pub proof fn law_millis_of_rounded(ticks: int)
    requires
        0 <= ticks,
        ticks * 1000 < 0x7fff_ffff_ffff_ffff * 0x8000_0000_0000_0000,
    ensures
        ({
            let size = (ticks * 1000) as nat;
            let found = crate::seconds::nearest(size, crate::seconds::grain(size));
            let r = crate::seconds::millis_spec(ticks);
            &&& found < 0x8000_0000_0000_0000 * 0x8000_0000_0000_0000 ==> r * 0x8000_0000_0000_0000
                <= found < (r + 1) * 0x8000_0000_0000_0000
            &&& found >= 0x8000_0000_0000_0000 * 0x8000_0000_0000_0000 ==> r
                == 0x7fff_ffff_ffff_ffff
            &&& crate::seconds::millis_spec(-ticks) == -r
        }),
{
    let size = (ticks * 1000) as nat;
    law_age_is_rounded(0, ticks * 1000);
    assert((-ticks) * 1000 == -(ticks * 1000));
}

/// Whole milliseconds that are too many to be held are held as the most that can be.
pub proof fn law_millis_saturate(ticks: int)
    requires
        ticks * 1000 >= 0x8000_0000_0000_0000 * 0x8000_0000_0000_0000,
    ensures
        crate::seconds::millis_spec(ticks) == 0x7fff_ffff_ffff_ffff,
        crate::seconds::millis_spec(-ticks) == -0x7fff_ffff_ffff_ffff,
{
    let least: nat = 0x8000_0000_0000_0000 * 0x8000_0000_0000_0000;
    lemma2_to64_rest();
    vstd::arithmetic::power2::lemma_pow2_adds(63, 63);
    lemma_kept(least, 1, 126);
    crate::seconds::law_rounding_keeps_order(least as int, ticks * 1000);
    crate::seconds::law_rounding_keeps_order(-(ticks * 1000), -(least as int));
    assert((-ticks) * 1000 == -(ticks * 1000));
}

/// Whole milliseconds are those that are over: of a time whose thousandfold has 53 significant bits
/// and no more, exactly so.
pub proof fn law_millis(ticks: int, m: nat, k: nat)
    requires
        m <= 0x20_0000_0000_0000,
        0 <= ticks * 1000 == m * pow2(k),
        ticks * 1000 < 0x7fff_ffff_ffff_ffff * 0x8000_0000_0000_0000,
    ensures
        crate::seconds::millis_spec(ticks) * 0x8000_0000_0000_0000 <= ticks * 1000,
        ticks * 1000 < (crate::seconds::millis_spec(ticks) + 1) * 0x8000_0000_0000_0000,
        crate::seconds::millis_spec(-ticks) == -crate::seconds::millis_spec(ticks),
{
    lemma_kept((ticks * 1000) as nat, m, k);
    assert((-ticks) * 1000 == -(ticks * 1000));
}

// ---------------------------------------------------------------------------------------------
// Doubles and instants
// ---------------------------------------------------------------------------------------------

/// The bits of a double: its sign, its exponent and its fraction.
pub open spec fn is_double(bits: u64, negative: bool, exponent: nat, fraction: nat) -> bool {
    &&& exponent < 0x800
    &&& fraction < 0x10_0000_0000_0000
    &&& bits == (if negative {
        0x8000_0000_0000_0000int
    } else {
        0
    }) + exponent * 0x10_0000_0000_0000 + fraction
}

/// The number with its sign.
pub open spec fn signed(size: int, negative: bool) -> int {
    if negative {
        -size
    } else {
        size
    }
}

/// A double that is an infinity, or not a number, is no time. Any other is the ticks in that many
/// seconds: exactly, unless they are too many, or so few that a fraction of a tick is left out.
pub proof fn law_double(bits: u64, negative: bool, exponent: nat, fraction: nat)
    requires
        is_double(bits, negative, exponent, fraction),
    ensures
        ({
            let top = 0x7fff_ffff_ffff_ffff_ffff_ffff_ffff_ffff;
            let digits = 0x10_0000_0000_0000 + fraction;
            let r = crate::seconds::double_ticks(bits);
            &&& (r is None) == (exponent == 0x7ff)
            &&& 1012 <= exponent < 0x7ff ==> r == Some(
                signed(
                    if digits * pow2((exponent - 1012) as nat) <= top {
                        (digits * pow2((exponent - 1012) as nat)) as int
                    } else {
                        top
                    },
                    negative,
                ),
            )
            &&& 0 < exponent < 1012 ==> r == Some(
                signed(
                    if digits < pow2((1012 - exponent) as nat) {
                        1
                    } else {
                        digits as int / (pow2((1012 - exponent) as nat) as int)
                    },
                    negative,
                ),
            )
            &&& exponent == 0 ==> r == Some(
                signed(
                    if fraction == 0 {
                        0
                    } else {
                        1
                    },
                    negative,
                ),
            )
        }),
{
    let high = bits as int / 0x10_0000_0000_0000;
    let sign = if negative {
        0x800int
    } else {
        0
    };
    assert(high == sign + exponent);
    assert(high % 0x800 == exponent);
    assert(bits as int % 0x10_0000_0000_0000 == fraction);
    assert(negative == (bits >= 0x8000_0000_0000_0000));
    let digits = 0x10_0000_0000_0000 + fraction;
    if 0 < exponent < 1012 {
        let p = pow2((1012 - exponent) as nat) as int;
        lemma_pow2_pos((1012 - exponent) as nat);
        lemma_quotient(digits as int, p);
    } else if exponent == 0 {
        lemma2_to64_rest();
        vstd::arithmetic::power2::lemma_pow2_strictly_increases(52, 1011);
        let p = pow2(1011) as int;
        assert(pow2(52) == 0x10_0000_0000_0000);
        lemma_quotient(fraction as int, p);
    } else if exponent < 0x7ff {
        let p = pow2((exponent - 1012) as nat);
        lemma_pow2_pos((exponent - 1012) as nat);
        assert(digits * p >= 1) by (nonlinear_arith)
            requires
                digits >= 1,
                p >= 1,
        ;
        assert(crate::seconds::double_power(bits) + 63 == exponent - 1012);
        assert(crate::seconds::double_significand(bits) == digits);
    }
}

proof fn lemma_quotient(n: int, p: int)
    requires
        0 <= n,
        0 < p,
    ensures
        n < p ==> n / p == 0,
        n >= p ==> n / p >= 1,
        n / p <= n,
{
    assert(n < p ==> n / p == 0) by (nonlinear_arith)
        requires
            0 <= n,
            0 < p,
    ;
    assert(n >= p ==> n / p >= 1) by (nonlinear_arith)
        requires
            0 <= n,
            0 < p,
    ;
    assert(n / p <= n) by (nonlinear_arith)
        requires
            0 <= n,
            0 < p,
    ;
}

/// The ticks in some nanoseconds are the number with 53 significant bits that is nearest to them; of
/// two that are, the even one.
pub proof fn law_nanos(nanos: nat, q: nat)
    ensures
        ({
            let exact = nanos * 0x8000_0000_0000_0000;
            let g = crate::seconds::grain(exact / 1_000_000_000);
            let found = 1_000_000_000 * (q * g);
            (2 * found - 1_000_000_000 * g < 2 * exact < 2 * found + 1_000_000_000 * g || (q % 2
                == 0 && (2 * exact == 2 * found - 1_000_000_000 * g || 2 * exact == 2 * found
                + 1_000_000_000 * g))) ==> crate::seconds::nano_ticks(nanos) == q * g
        }),
{
    let exact = nanos * 0x8000_0000_0000_0000;
    let g = crate::seconds::grain(exact / 1_000_000_000);
    let step = 1_000_000_000 * g;
    crate::seconds::lemma_grain(exact / 1_000_000_000);
    law_nearest(exact, step, q);
    assert(q * step == 1_000_000_000 * (q * g)) by (nonlinear_arith)
        requires
            step == 1_000_000_000 * g,
    ;
    assert((1_000_000_000 * (q * g)) / 1_000_000_000 == q * g);
}

/// An instant is its seconds and its nanoseconds together, with 53 significant bits; one without
/// nanoseconds is exact.
pub proof fn law_instant(secs: int, nanos: nat)
    requires
        -0x20_0000_0000_0000 <= secs <= 0x20_0000_0000_0000,
    ensures
        crate::seconds::instant_ticks(secs, nanos) == crate::seconds::double_near(
            secs * 0x8000_0000_0000_0000 + crate::seconds::nano_ticks(nanos),
        ),
        crate::seconds::instant_ticks(secs, 0) == secs * 0x8000_0000_0000_0000,
{
    let size = if secs >= 0 {
        secs as nat
    } else {
        (-secs) as nat
    };
    lemma2_to64_rest();
    assert(pow2(63) == 0x8000_0000_0000_0000);
    lemma_kept(size * 0x8000_0000_0000_0000, size, 63);
    law_nanos(0, 0);
    assert(crate::seconds::grain(0) == 1);
    assert(crate::seconds::nano_ticks(0) == 0);
    assert(crate::seconds::double_near(secs * 0x8000_0000_0000_0000) == secs
        * 0x8000_0000_0000_0000);
}

// ---------------------------------------------------------------------------------------------
// Changes of files
// ---------------------------------------------------------------------------------------------

/// A file is due where it has changed and its last change is at least `wait` ago, and only there.
pub proof fn law_due(changes: Map<u64, int>, file: u64, now: int, wait: int)
    ensures
        !changes.dom().contains(file) ==> !crate::pulse::is_due(changes, file, now, wait),
        changes.dom().contains(file) ==> crate::pulse::is_due(changes, file, now, wait) == (
        changes[file] + wait <= now),
{
}

/// What is left are the files that are not due, each with its last change.
pub proof fn law_left_over(changes: Map<u64, int>, file: u64, now: int, wait: int)
    ensures
        ({
            let left = crate::pulse::left_over(changes, now, wait);
            &&& left.dom().contains(file) == (changes.dom().contains(file) && now < changes[file]
                + wait)
            &&& left.dom().contains(file) ==> left[file] == changes[file]
        }),
{
}

// ---------------------------------------------------------------------------------------------
// News and the heartbeat
// ---------------------------------------------------------------------------------------------

/// The last status that is listed of a session is the one that has been told then; what was told of
/// a session that is not listed stays.
pub proof fn law_told(
    told: Map<Seq<char>, Seq<char>>,
    list: Seq<SummaryView>,
    sid: Seq<char>,
    i: int,
)
    requires
        -1 <= i < list.len(),
        i >= 0 ==> list[i].sid == sid,
        forall|j: int| i < j < list.len() ==> (#[trigger] list[j]).sid != sid,
    ensures
        ({
            let after = crate::pulse::told_after(told, list);
            &&& i >= 0 ==> after.dom().contains(sid) && after[sid] == list[i].status
            &&& i < 0 ==> after.dom().contains(sid) == told.dom().contains(sid) && after[sid]
                == told[sid]
        }),
    decreases list.len(),
{
    if list.len() > 0 {
        let less = list.drop_last();
        let n = less.len() as int;
        assert(list.last() == list[n]);
        if i < n {
            assert forall|j: int| i < j < less.len() implies (#[trigger] less[j]).sid != sid by {
                assert(list[j].sid != sid);
            }
            assert(i >= 0 ==> less[i] == list[i]);
            law_told(told, less, sid, i);
            assert(list[n].sid != sid);
        }
    }
}

/// There is news of those sessions, in the order of the list, that nothing was told of, or another
/// status.
pub proof fn law_news(told: Map<Seq<char>, Seq<char>>, list: Seq<SummaryView>)
    requires
        forall|i: int, j: int|
            0 <= i < j < list.len() ==> (#[trigger] list[i]).sid != (#[trigger] list[j]).sid,
    ensures
        crate::pulse::news(told, list) == list.filter(
            |s: SummaryView| !told.dom().contains(s.sid) || told[s.sid] != s.status,
        ).map_values(|s: SummaryView| s.sid),
    decreases list.len(),
{
    reveal(Seq::filter);
    let changed = |s: SummaryView| !told.dom().contains(s.sid) || told[s.sid] != s.status;
    let id = |s: SummaryView| s.sid;
    if list.len() > 0 {
        let less = list.drop_last();
        let n = less.len() as int;
        let last = list[n];
        assert(list.last() == last);
        assert forall|i: int, j: int| 0 <= i < j < less.len() implies (#[trigger] less[i]).sid != (
        #[trigger] less[j]).sid by {
            assert(list[i].sid != list[j].sid);
        }
        law_news(told, less);
        assert forall|j: int| -1 < j < less.len() implies (#[trigger] less[j]).sid != last.sid by {
            assert(list[j].sid != list[n].sid);
        }
        law_told(told, less, last.sid, -1);
        assert(crate::pulse::is_news(crate::pulse::told_after(told, less), last) == changed(last));
        if changed(last) {
            assert(less.filter(changed).push(last).map_values(id) =~= less.filter(
                changed,
            ).map_values(id).push(last.sid));
        }
        assert(crate::pulse::news(told, list) =~= list.filter(changed).map_values(id));
    } else {
        assert(crate::pulse::news(told, list) =~= list.filter(changed).map_values(id));
    }
}

/// Of no sessions there is no news. Of one more there is where its status has not been told, with
/// what was told of those in front of it.
pub proof fn law_news_of_one_more(
    told: Map<Seq<char>, Seq<char>>,
    list: Seq<SummaryView>,
    s: SummaryView,
)
    ensures
        ({
            let known = crate::pulse::told_after(told, list);
            &&& crate::pulse::news(told, Seq::empty()).len() == 0
            &&& known.dom().contains(s.sid) && known[s.sid] == s.status ==> crate::pulse::news(
                told,
                list.push(s),
            ) == crate::pulse::news(told, list)
            &&& !known.dom().contains(s.sid) || known[s.sid] != s.status ==> crate::pulse::news(
                told,
                list.push(s),
            ) == crate::pulse::news(told, list).push(s.sid)
        }),
{
    assert(list.push(s).drop_last() =~= list);
}

/// One event tells of each session that there is, in their order, and of no other.
pub proof fn law_tell(
    events: Seq<Event>,
    sids: Seq<Seq<char>>,
    sessions: Map<Seq<char>, SessionView>,
    now: int,
)
    ensures
        ({
            let known = sids.filter(|sid: Seq<char>| sessions.dom().contains(sid));
            crate::pulse::tell(events, sids, sessions, now) == (events.len() == known.len()
                && forall|i: int|
                0 <= i < events.len() ==> crate::monitor::tells_session(
                    #[trigger] events[i],
                    sessions[known[i]],
                    now,
                ))
        }),
    decreases sids.len(),
{
    reveal(Seq::filter);
    let there = |sid: Seq<char>| sessions.dom().contains(sid);
    let known = sids.filter(there);
    if sids.len() > 0 {
        let less = sids.drop_last();
        let before = less.filter(there);
        if sessions.dom().contains(sids.last()) {
            assert(known =~= before.push(sids.last()));
            if events.len() > 0 {
                let fewer = events.drop_last();
                let n = fewer.len() as int;
                law_tell(fewer, less, sessions, now);
                assert(events.last() == events[n]);
                if crate::pulse::tell(events, sids, sessions, now) {
                    assert forall|i: int|
                        0 <= i < events.len() implies crate::monitor::tells_session(
                        #[trigger] events[i],
                        sessions[known[i]],
                        now,
                    ) by {
                        if i < n {
                            assert(fewer[i] == events[i]);
                            assert(known[i] == before[i]);
                        }
                    }
                }
                if events.len() == known.len() && forall|i: int|
                    0 <= i < events.len() ==> crate::monitor::tells_session(
                        #[trigger] events[i],
                        sessions[known[i]],
                        now,
                    ) {
                    assert forall|i: int|
                        0 <= i < fewer.len() implies crate::monitor::tells_session(
                        #[trigger] fewer[i],
                        sessions[before[i]],
                        now,
                    ) by {
                        assert(fewer[i] == events[i]);
                        assert(known[i] == before[i]);
                    }
                    assert(crate::monitor::tells_session(events[n], sessions[known[n]], now));
                }
            }
        } else {
            law_tell(events, less, sessions, now);
        }
    }
}

/// Files are looked at every fifty milliseconds, statuses every second, and the heart beats every
/// fifteen.
pub proof fn law_periods()
    ensures
        crate::pulse::POLL_MILLIS == 50,
        crate::pulse::TICK_SECS == 1,
        crate::pulse::HEARTBEAT_SECS == 15,
{
}

/// The heart beats where the last beat was fifteen seconds ago, or more, and only there.
pub proof fn law_beat(last_beat: int, clock: int)
    ensures
        crate::pulse::beat_due(last_beat, clock) == (last_beat + 15_000_000_000 <= clock),
{
}

} // verus!
