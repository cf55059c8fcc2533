//! The search for the settings of the system PLL that give a wanted
//! frequency.
//!
//! The PLL multiplies the frequency of the crystal by a feedback divider,
//! which gives the frequency of its oscillator, and divides that by two
//! post dividers.

use vstd::prelude::*;

verus! {

/// Frequency of the crystal in kilohertz.
pub const XOSC_CRYSTAL_KHZ: u32 = 12_000;

/// The lowest frequency of the oscillator of the PLL in kilohertz.
pub const PICO_PLL_VCO_MIN_KHZ: u32 = 750_000;

/// The highest frequency of the oscillator of the PLL in kilohertz.
pub const PICO_PLL_VCO_MAX_KHZ: u32 = 1_600_000;

/// Settings of the PLL: the frequency of its oscillator in kilohertz and
/// its two post dividers.
#[derive(Clone, Copy, PartialEq, Eq, Structural)]
pub struct ClockCfg {
    pub vco_freq: u32,
    pub post_div1: u32,
    pub post_div2: u32,
}

/// Settings of the PLL with its reference divider.
#[derive(Clone, Copy, PartialEq, Eq, Structural)]
pub struct PllSettings {
    pub vco_freq_khz: u32,
    pub refdiv: u8,
    pub post_div1: u8,
    pub post_div2: u8,
}

/// What is to be set up for a wanted system clock: the settings of the
/// system PLL, the frequency of the system clock that they give, and the
/// frequency of the clock of the serialiser.
#[derive(Clone, Copy, PartialEq, Eq, Structural)]
pub struct ClockPlan {
    pub pll_sys: PllSettings,
    pub sys_khz: u32,
    pub hstx_khz: u32,
}

/// Whether a feedback divider and two post dividers give `requested`
/// kilohertz exactly, with the oscillator within its range and the larger
/// post divider first.
pub open spec fn pll_gives(requested: int, feedback: int, post_div1: int, post_div2: int) -> bool {
    &&& 16 <= feedback <= 320
    &&& PICO_PLL_VCO_MIN_KHZ <= feedback * XOSC_CRYSTAL_KHZ <= PICO_PLL_VCO_MAX_KHZ
    &&& 1 <= post_div2 <= post_div1 <= 7
    &&& feedback * XOSC_CRYSTAL_KHZ == requested * (post_div1 * post_div2)
}

/// Whether the first settings are preferred to the second: those with the
/// faster oscillator, then those with the larger first post divider, then
/// those with the larger second.
pub open spec fn preferred(f1: int, p1: int, q1: int, f2: int, p2: int, q2: int) -> bool {
    f1 > f2 || (f1 == f2 && (p1 > p2 || (p1 == p2 && q1 >= q2)))
}

/// The settings that are used when the wanted frequency cannot be had:
/// those for 150 MHz.
pub open spec fn default_pll() -> PllSettings {
    PllSettings { vco_freq_khz: 1_500_000, refdiv: 1, post_div1: 5, post_div2: 2 }
}

/// The settings of the PLL for a system clock of `requested_freq`
/// kilohertz: of all settings that give that frequency exactly the
/// preferred ones, and `None` if there are none.
pub fn configure_sys_clock(requested_freq: u32) -> (r: Option<ClockCfg>)
    ensures
        r.is_none() ==> forall|f: int, p: int, q: int| !pll_gives(requested_freq as int, f, p, q),
        r.is_some() ==> {
            let cfg = r.unwrap();
            &&& cfg.vco_freq % XOSC_CRYSTAL_KHZ == 0
            &&& pll_gives(
                requested_freq as int,
                cfg.vco_freq as int / (XOSC_CRYSTAL_KHZ as int),
                cfg.post_div1 as int,
                cfg.post_div2 as int,
            )
            &&& forall|f: int, p: int, q: int|
                pll_gives(requested_freq as int, f, p, q) ==> preferred(
                    cfg.vco_freq as int / (XOSC_CRYSTAL_KHZ as int),
                    cfg.post_div1 as int,
                    cfg.post_div2 as int,
                    f,
                    p,
                    q,
                )
        },
{
    let mut feedback_divider: u32 = 320;
    while feedback_divider >= 16
        invariant
            15 <= feedback_divider <= 320,
            forall|f: int, p: int, q: int|
                f > feedback_divider ==> !pll_gives(requested_freq as int, f, p, q),
        decreases feedback_divider,
    {
        let vco_freq = feedback_divider * XOSC_CRYSTAL_KHZ;
        // All feedback dividers below this one give less.
        if vco_freq < PICO_PLL_VCO_MIN_KHZ {
            proof {
                assert forall|f: int, p: int, q: int| !pll_gives(requested_freq as int, f, p, q) by {
                    if f <= feedback_divider {
                        assert(f * XOSC_CRYSTAL_KHZ <= feedback_divider * XOSC_CRYSTAL_KHZ)
                            by (nonlinear_arith)
                            requires
                                f <= feedback_divider,
                        ;
                    }
                }
            }
            return None;
        }
        if vco_freq <= PICO_PLL_VCO_MAX_KHZ {
            let mut post_div1: u32 = 7;
            while post_div1 >= 1
                invariant
                    0 <= post_div1 <= 7,
                    16 <= feedback_divider <= 320,
                    vco_freq == feedback_divider * XOSC_CRYSTAL_KHZ,
                    PICO_PLL_VCO_MIN_KHZ <= vco_freq <= PICO_PLL_VCO_MAX_KHZ,
                    forall|f: int, p: int, q: int|
                        f > feedback_divider ==> !pll_gives(requested_freq as int, f, p, q),
                    forall|p: int, q: int|
                        p > post_div1 ==> !pll_gives(
                            requested_freq as int,
                            feedback_divider as int,
                            p,
                            q,
                        ),
                decreases post_div1,
            {
                let mut post_div2: u32 = post_div1;
                while post_div2 >= 1
                    invariant
                        0 <= post_div2 <= post_div1,
                        1 <= post_div1 <= 7,
                        16 <= feedback_divider <= 320,
                        vco_freq == feedback_divider * XOSC_CRYSTAL_KHZ,
                        PICO_PLL_VCO_MIN_KHZ <= vco_freq <= PICO_PLL_VCO_MAX_KHZ,
                        forall|f: int, p: int, q: int|
                            f > feedback_divider ==> !pll_gives(requested_freq as int, f, p, q),
                        forall|p: int, q: int|
                            p > post_div1 ==> !pll_gives(
                                requested_freq as int,
                                feedback_divider as int,
                                p,
                                q,
                            ),
                        forall|q: int|
                            q > post_div2 ==> !pll_gives(
                                requested_freq as int,
                                feedback_divider as int,
                                post_div1 as int,
                                q,
                            ),
                    decreases post_div2,
                {
                    assert(1 <= post_div1 * post_div2 <= 49) by (nonlinear_arith)
                        requires
                            1 <= post_div2 <= post_div1 <= 7,
                    ;
                    let divider = post_div1 * post_div2;
                    let output_frequency = vco_freq / divider;
                    assert(output_frequency * divider <= vco_freq) by (nonlinear_arith)
                        requires
                            output_frequency == vco_freq / divider,
                            divider > 0,
                    ;
                    // The frequency is only met if the dividers leave no
                    // remainder.
                    let vco_freq_divisible = output_frequency * divider == vco_freq;
                    if output_frequency == requested_freq && vco_freq_divisible {
                        proof {
                            vstd::arithmetic::div_mod::lemma_div_multiples_vanish(
                                feedback_divider as int,
                                XOSC_CRYSTAL_KHZ as int,
                            );
                            vstd::arithmetic::div_mod::lemma_mod_multiples_basic(
                                feedback_divider as int,
                                XOSC_CRYSTAL_KHZ as int,
                            );
                            assert(vco_freq as int == XOSC_CRYSTAL_KHZ as int * feedback_divider);
                            assert(vco_freq as int / (XOSC_CRYSTAL_KHZ as int) == feedback_divider);
                            assert(pll_gives(
                                requested_freq as int,
                                feedback_divider as int,
                                post_div1 as int,
                                post_div2 as int,
                            ));
                            assert forall|f: int, p: int, q: int|
                                pll_gives(requested_freq as int, f, p, q) implies preferred(
                                feedback_divider as int,
                                post_div1 as int,
                                post_div2 as int,
                                f,
                                p,
                                q,
                            ) by {
                                if f == feedback_divider && p == post_div1 && q > post_div2 {
                                    assert(!pll_gives(
                                        requested_freq as int,
                                        feedback_divider as int,
                                        post_div1 as int,
                                        q,
                                    ));
                                }
                                if f == feedback_divider && p > post_div1 {
                                    assert(!pll_gives(
                                        requested_freq as int,
                                        feedback_divider as int,
                                        p,
                                        q,
                                    ));
                                }
                            }
                        }
                        return Some(ClockCfg { vco_freq, post_div1, post_div2 });
                    }
                    proof {
                        if vco_freq as int == requested_freq as int * (post_div1 as int
                            * post_div2 as int) {
                            assert(vco_freq as int == divider as int * requested_freq as int)
                                by (nonlinear_arith)
                                requires
                                    vco_freq as int == requested_freq as int * (post_div1 as int
                                        * post_div2 as int),
                                    divider as int == post_div1 as int * post_div2 as int,
                            ;
                            vstd::arithmetic::div_mod::lemma_div_multiples_vanish(
                                requested_freq as int,
                                divider as int,
                            );
                            assert(output_frequency == requested_freq);
                            assert(output_frequency * divider == vco_freq) by (nonlinear_arith)
                                requires
                                    output_frequency == requested_freq,
                                    vco_freq as int == divider as int * requested_freq as int,
                            ;
                            assert(false);
                        }
                    }
                    post_div2 -= 1;
                }
                post_div1 -= 1;
            }
        } else {
            proof {
                assert forall|p: int, q: int|
                    !pll_gives(requested_freq as int, feedback_divider as int, p, q) by {}
            }
        }
        feedback_divider -= 1;
    }
    None
}

/// The plan for a system clock of `freq_khz` kilohertz: the settings of
/// the PLL that give that frequency exactly, or else those for 150 MHz,
/// and the clock of the serialiser, which is the system clock divided by
/// `hstx_divisor`.
pub fn init_clocks(freq_khz: u32, hstx_divisor: u32) -> (r: ClockPlan)
    requires
        hstx_divisor > 0,
    ensures
        r.pll_sys.refdiv == 1,
        r.sys_khz == r.pll_sys.vco_freq_khz as int / (r.pll_sys.post_div1 * r.pll_sys.post_div2),
        r.hstx_khz == r.sys_khz / hstx_divisor,
        (exists|f: int, p: int, q: int| pll_gives(freq_khz as int, f, p, q)) ==> {
            &&& r.sys_khz == freq_khz
            &&& r.pll_sys.vco_freq_khz % XOSC_CRYSTAL_KHZ == 0
            &&& pll_gives(
                freq_khz as int,
                r.pll_sys.vco_freq_khz as int / (XOSC_CRYSTAL_KHZ as int),
                r.pll_sys.post_div1 as int,
                r.pll_sys.post_div2 as int,
            )
        },
        !(exists|f: int, p: int, q: int| pll_gives(freq_khz as int, f, p, q)) ==> r.pll_sys
            == default_pll() && r.sys_khz == 150_000,
{
    let found = configure_sys_clock(freq_khz);
    proof {
        if found.is_some() {
            let cfg = found.unwrap();
            assert(pll_gives(
                freq_khz as int,
                cfg.vco_freq as int / (XOSC_CRYSTAL_KHZ as int),
                cfg.post_div1 as int,
                cfg.post_div2 as int,
            ));
        }
    }
    let pll_sys = match found {
        Some(cfg) => PllSettings {
            vco_freq_khz: cfg.vco_freq,
            refdiv: 1,
            post_div1: cfg.post_div1 as u8,
            post_div2: cfg.post_div2 as u8,
        },
        None => PllSettings { vco_freq_khz: 1_500_000, refdiv: 1, post_div1: 5, post_div2: 2 },
    };
    assert(1 <= pll_sys.post_div1 * pll_sys.post_div2 <= 49) by (nonlinear_arith)
        requires
            1 <= pll_sys.post_div2 <= pll_sys.post_div1 <= 7,
    ;
    let sys_khz = pll_sys.vco_freq_khz / (pll_sys.post_div1 as u32 * pll_sys.post_div2 as u32);
    proof {
        if found.is_some() {
            let d = pll_sys.post_div1 as int * pll_sys.post_div2 as int;
            let f = pll_sys.vco_freq_khz as int / (XOSC_CRYSTAL_KHZ as int);
            vstd::arithmetic::div_mod::lemma_div_multiples_vanish(freq_khz as int, d);
            vstd::arithmetic::div_mod::lemma_fundamental_div_mod(
                pll_sys.vco_freq_khz as int,
                XOSC_CRYSTAL_KHZ as int,
            );
            assert(pll_sys.vco_freq_khz == d * freq_khz) by (nonlinear_arith)
                requires
                    f * XOSC_CRYSTAL_KHZ == freq_khz * d,
                    pll_sys.vco_freq_khz == XOSC_CRYSTAL_KHZ * f,
            ;
        } else {
            assert(pll_sys.post_div1 as u32 * pll_sys.post_div2 as u32 == 10u32);
            assert(pll_sys.vco_freq_khz == 1_500_000);
            assert(sys_khz == 1_500_000u32 / 10u32);
            assert forall|f: int, p: int, q: int| !pll_gives(freq_khz as int, f, p, q) by {}
        }
    }
    ClockPlan { pll_sys, sys_khz, hstx_khz: sys_khz / hstx_divisor }
}

} // verus!
