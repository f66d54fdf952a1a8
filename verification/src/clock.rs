//! The card clock: which divisor the kernel clock needs.

use vstd::arithmetic::div_mod::{
    lemma_div_basics, lemma_div_is_ordered_by_denominator, lemma_fundamental_div_mod,
    lemma_multiply_divide_lt,
};
use vstd::prelude::*;

use crate::types::{Error, Hertz, Version};

verus! {

/// What a value of the CLKDIV field divides the kernel clock by.
pub open spec fn divider(version: Version, clkdiv: nat) -> nat {
    match version {
        Version::V1 => clkdiv + 2,
        Version::V2 => if clkdiv == 0 {
            1
        } else {
            2 * clkdiv
        },
    }
}

/// The largest value that the CLKDIV field holds.
pub open spec fn max_clkdiv(version: Version) -> nat {
    match version {
        Version::V1 => 255,
        Version::V2 => 1023,
    }
}

/// The card clock that a kernel clock of `ker_ck` and the field value `clkdiv` give.
pub open spec fn card_clock(version: Version, ker_ck: Hertz, clkdiv: nat) -> Hertz {
    Hertz((ker_ck.0 as nat / divider(version, clkdiv)) as u32)
}

/// With the field value `clkdiv` the card clock, not rounded, does not exceed `sdmmc_ck`.
pub open spec fn slow_enough(version: Version, ker_ck: Hertz, sdmmc_ck: u32, clkdiv: nat) -> bool {
    ker_ck.0 <= sdmmc_ck * divider(version, clkdiv)
}

/// The field value to set for a clock of at most `sdmmc_ck`, without regard to the width of the
/// field. Revision 1 takes the quotient of the clocks where the card clock, in whole Hertz, then
/// keeps to `sdmmc_ck`, and else the next; revision 2 takes the least that is slow enough.
pub open spec fn clkdiv_for(version: Version, ker_ck: Hertz, sdmmc_ck: u32) -> nat {
    match version {
        Version::V1 => {
            let quotient = (ker_ck.0 / sdmmc_ck) as int;
            let by = if quotient <= 2 {
                2
            } else {
                quotient
            };
            if ker_ck.0 as int / by <= sdmmc_ck {
                (by - 2) as nat
            } else {
                (by - 1) as nat
            }
        },
        Version::V2 => {
            let ratio = (ker_ck.0 + sdmmc_ck - 1) / sdmmc_ck as int;
            if ratio <= 1 {
                0
            } else {
                ((ratio + 1) / 2) as nat
            }
        },
    }
}

/// The divisor and the resulting clock for a wanted clock, or that there is none.
pub open spec fn clk_div_spec(version: Version, ker_ck: Hertz, sdmmc_ck: u32) -> Result<
    (u16, Hertz),
    Error,
> {
    let d = clkdiv_for(version, ker_ck, sdmmc_ck);
    if d <= max_clkdiv(version) {
        Ok((d as u16, card_clock(version, ker_ck, d)))
    } else {
        Err(Error::BadClock)
    }
}

/// The card clock is the kernel clock divided, rounded down to whole Hertz.
pub proof fn law_card_clock(version: Version, ker_ck: Hertz, clkdiv: nat)
    ensures
        card_clock(version, ker_ck, clkdiv).0 == ker_ck.0 as nat / divider(version, clkdiv),
        card_clock(version, ker_ck, clkdiv).0 <= ker_ck.0,
{
    lemma_div_is_ordered_by_denominator(
        ker_ck.0 as int,
        1,
        divider(version, clkdiv) as int,
    );
}

/// A clock below `n` times a bound that it is divided by is below that bound.
proof fn lemma_divided_below(k: int, n: int, bound: int)
    requires
        k < n * bound,
        n > 0,
        k >= 0,
    ensures
        k / n < bound,
{
    lemma_multiply_divide_lt(k, n, bound);
}

/// A clock that, divided by `n`, exceeds `s` is more than `n` times `s`.
proof fn lemma_divided_above(k: int, n: int, s: int)
    requires
        k / n > s,
        n > 0,
    ensures
        k > s * n,
{
    lemma_fundamental_div_mod(k, n);
    assert(k > s * n) by (nonlinear_arith)
        requires
            k == n * (k / n) + k % n,
            0 <= k % n,
            k / n > s,
            n > 0,
    ;
}

proof fn lemma_clkdiv_first_revision(ker_ck: Hertz, sdmmc_ck: u32)
    requires
        sdmmc_ck > 0,
    ensures
        ({
            let d = clkdiv_for(Version::V1, ker_ck, sdmmc_ck);
            &&& card_clock(Version::V1, ker_ck, d).0 <= sdmmc_ck
            &&& forall|e: nat| e < d ==> !slow_enough(Version::V1, ker_ck, sdmmc_ck, e)
        }),
{
    let k = ker_ck.0 as int;
    let s = sdmmc_ck as int;
    let q = k / s;
    let by = if q <= 2 {
        2
    } else {
        q
    };
    let d = clkdiv_for(Version::V1, ker_ck, sdmmc_ck);
    let n = divider(Version::V1, d) as int;
    law_card_clock(Version::V1, ker_ck, d);
    lemma_fundamental_div_mod(k, s);
    assert(s * q <= k < s * (q + 1)) by (nonlinear_arith)
        requires
            k == s * q + k % s,
            0 <= k % s < s,
    ;
    if k / by <= s {
        assert(n == by);
    } else {
        assert(n == by + 1);
        assert(k < n * (s + 1)) by (nonlinear_arith)
            requires
                k < s * (q + 1),
                n >= q + 1,
                s > 0,
                n > 0,
        ;
        lemma_divided_below(k, n, s + 1);
        lemma_divided_above(k, by, s);
    }
    assert forall|e: nat| e < d implies !slow_enough(Version::V1, ker_ck, sdmmc_ck, e) by {
        let m = divider(Version::V1, e) as int;
        if n == by {
            assert(s * m < k) by (nonlinear_arith)
                requires
                    m <= q - 1,
                    s * q <= k,
                    s > 0,
            ;
        } else {
            assert(s * m <= s * by) by (nonlinear_arith)
                requires
                    m <= by,
                    s > 0,
            ;
        }
    }
}

proof fn lemma_clkdiv_second_revision(ker_ck: Hertz, sdmmc_ck: u32)
    requires
        sdmmc_ck > 0,
    ensures
        ({
            let d = clkdiv_for(Version::V2, ker_ck, sdmmc_ck);
            &&& slow_enough(Version::V2, ker_ck, sdmmc_ck, d)
            &&& card_clock(Version::V2, ker_ck, d).0 <= sdmmc_ck
            &&& forall|e: nat| e < d ==> !slow_enough(Version::V2, ker_ck, sdmmc_ck, e)
        }),
{
    let k = ker_ck.0 as int;
    let s = sdmmc_ck as int;
    let ratio = (k + s - 1) / s;
    let d = clkdiv_for(Version::V2, ker_ck, sdmmc_ck);
    let n = divider(Version::V2, d) as int;
    law_card_clock(Version::V2, ker_ck, d);
    lemma_fundamental_div_mod(k + s - 1, s);
    assert(s * ratio >= k);
    assert(s * (ratio - 1) < k || ratio == 0) by (nonlinear_arith)
        requires
            k + s - 1 == s * ratio + (k + s - 1) % s,
            0 <= (k + s - 1) % s,
            s > 0,
            k >= 0,
    ;
    assert(ratio >= 0) by (nonlinear_arith)
        requires
            s * ratio >= k,
            k >= 0,
            s > 0,
    ;
    assert(k <= s * n) by (nonlinear_arith)
        requires
            s * ratio >= k,
            n >= ratio,
            s > 0,
    ;
    assert(k < n * (s + 1)) by (nonlinear_arith)
        requires
            k <= s * n,
            n > 0,
    ;
    lemma_divided_below(k, n, s + 1);
    assert forall|e: nat| e < d implies !slow_enough(Version::V2, ker_ck, sdmmc_ck, e) by {
        let m = divider(Version::V2, e) as int;
        assert(s * m <= s * (ratio - 1)) by (nonlinear_arith)
            requires
                m <= ratio - 1,
                s > 0,
        ;
    }
}

/// The field value that is set keeps the card clock within the limit, every smaller one is too
/// fast, and revision 2 keeps to the limit without rounding.
pub proof fn law_clkdiv_keeps_limit(version: Version, ker_ck: Hertz, sdmmc_ck: u32)
    requires
        sdmmc_ck > 0,
    ensures
        card_clock(version, ker_ck, clkdiv_for(version, ker_ck, sdmmc_ck)).0 <= sdmmc_ck,
        forall|d: nat|
            d < clkdiv_for(version, ker_ck, sdmmc_ck) ==> !slow_enough(
                version,
                ker_ck,
                sdmmc_ck,
                d,
            ),
        version == Version::V2 ==> slow_enough(
            version,
            ker_ck,
            sdmmc_ck,
            clkdiv_for(version, ker_ck, sdmmc_ck),
        ),
{
    match version {
        Version::V1 => lemma_clkdiv_first_revision(ker_ck, sdmmc_ck),
        Version::V2 => lemma_clkdiv_second_revision(ker_ck, sdmmc_ck),
    }
}

/// The field value `clkdiv` and the clock `clock` are right for a kernel clock of `ker` and a
/// wanted clock of `wanted`, all in Hertz. Revision 1 divides by two more than the field value. The
/// clock, in whole Hertz, keeps to what is wanted; the next smaller value would exceed it, and in
/// whole Hertz too where the quotient of the clocks is already exceeded. Revision 2 divides by
/// twice the field value, or not at all for zero; it keeps to what is wanted, and the next smaller
/// value would not.
pub open spec fn divides_well(
    version: Version,
    ker: int,
    wanted: int,
    clkdiv: int,
    clock: int,
) -> bool {
    match version {
        Version::V1 => {
            &&& 0 <= clkdiv <= 255
            &&& clock == ker / (clkdiv + 2)
            &&& clock <= wanted
            &&& clkdiv > 0 ==> ker > wanted * (clkdiv + 1)
            &&& clkdiv > 0 && ker < wanted * (clkdiv + 2) ==> ker / (clkdiv + 1) > wanted
        },
        Version::V2 => {
            &&& 0 <= clkdiv <= 1023
            &&& clkdiv == 0 ==> clock == ker && ker <= wanted
            &&& clkdiv > 0 ==> clock == ker / (2 * clkdiv) && ker <= wanted * (2 * clkdiv)
            &&& clkdiv == 1 ==> ker > wanted
            &&& clkdiv > 1 ==> ker > wanted * (2 * (clkdiv - 1))
        },
    }
}

/// A wanted clock is had with the divisor that is right for it; it cannot be had only where the
/// kernel clock exceeds it more times than the field can divide by, 257 times or 2046 times.
pub proof fn law_clk_div(version: Version, ker_ck: Hertz, sdmmc_ck: u32)
    requires
        sdmmc_ck > 0,
    ensures
        match clk_div_spec(version, ker_ck, sdmmc_ck) {
            Ok((d, f)) => divides_well(
                version,
                ker_ck.0 as int,
                sdmmc_ck as int,
                d as int,
                f.0 as int,
            ),
            Err(e) => {
                &&& e == Error::BadClock
                &&& version == Version::V1 ==> ker_ck.0 > sdmmc_ck * 257
                &&& version == Version::V2 ==> ker_ck.0 > sdmmc_ck * 2046
            },
        },
{
    let k = ker_ck.0 as int;
    let s = sdmmc_ck as int;
    let d = clkdiv_for(version, ker_ck, sdmmc_ck);
    law_clkdiv_keeps_limit(version, ker_ck, sdmmc_ck);
    law_card_clock(version, ker_ck, d);
    match version {
        Version::V1 => {
            if d > 255 {
                assert(!slow_enough(version, ker_ck, sdmmc_ck, 255));
            }
            if d > 0 {
                assert(!slow_enough(version, ker_ck, sdmmc_ck, (d - 1) as nat));
                lemma_fundamental_div_mod(k, s);
                let q = k / s;
                if k < s * (d + 2) {
                    assert(q < d + 2) by (nonlinear_arith)
                        requires
                            k == s * q + k % s,
                            0 <= k % s,
                            k < s * (d + 2),
                            s > 0,
                    ;
                }
            }
        },
        Version::V2 => {
            if d > 1023 {
                assert(!slow_enough(version, ker_ck, sdmmc_ck, 1023));
            }
            if d > 0 {
                assert(!slow_enough(version, ker_ck, sdmmc_ck, (d - 1) as nat));
            }
        },
    }
}

/// Calculate clock divisor. Returns a SDMMC_CK less than or equal to
/// `sdmmc_ck` in Hertz.
///
/// Returns `(clk_div, clk_f)`, where `clk_div` is the divisor register
/// value and `clk_f` is the resulting new clock frequency. Every smaller divisor is too fast;
/// where the field is too narrow for the divisor the clock cannot be had.
pub fn clk_div(version: Version, ker_ck: Hertz, sdmmc_ck: u32) -> (r: Result<(u16, Hertz), Error>)
    requires
        sdmmc_ck > 0,
    ensures
        r == clk_div_spec(version, ker_ck, sdmmc_ck),
        r matches Ok((d, f)) ==> {
            &&& d <= max_clkdiv(version)
            &&& f.0 == ker_ck.0 as nat / divider(version, d as nat)
            &&& f.0 <= sdmmc_ck
            &&& forall|e: nat| e < d ==> !slow_enough(version, ker_ck, sdmmc_ck, e)
        },
        r matches Err(e) ==> e == Error::BadClock && !slow_enough(
            version,
            ker_ck,
            sdmmc_ck,
            max_clkdiv(version),
        ),
{
    proof {
        law_clkdiv_keeps_limit(version, ker_ck, sdmmc_ck);
        law_card_clock(version, ker_ck, clkdiv_for(version, ker_ck, sdmmc_ck));
    }
    match version {
        Version::V1 => {
            let quotient: u32 = ker_ck.0 / sdmmc_ck;
            let by: u32 = if quotient <= 2 {
                2
            } else {
                quotient
            };
            let clk_div: u32 = if ker_ck.0 / by <= sdmmc_ck {
                by - 2
            } else {
                by - 1
            };
            if clk_div > 255 {
                return Err(Error::BadClock);
            }
            // SDIO_CK frequency = SDIOCLK / [CLKDIV + 2]
            let clk_f = Hertz(ker_ck.0 / (clk_div + 2));
            Ok((clk_div as u16, clk_f))
        },
        Version::V2 => {
            let ratio: u64 = (ker_ck.0 as u64 + sdmmc_ck as u64 - 1) / sdmmc_ck as u64;
            if ratio <= 1 {
                proof {
                    lemma_div_basics(ker_ck.0 as int);
                }
                assert(divider(version, 0) == 1);
                return Ok((0, ker_ck));
            }
            proof {
                lemma_div_is_ordered_by_denominator(ker_ck.0 + sdmmc_ck - 1, 1, sdmmc_ck as int);
            }
            let clk_div: u64 = (ratio + 1) / 2;
            if clk_div > 1023 {
                return Err(Error::BadClock);
            }
            let clk_f = Hertz(ker_ck.0 / (clk_div as u32 * 2));
            Ok((clk_div as u16, clk_f))
        },
    }
}

} // verus!
