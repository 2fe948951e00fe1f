use crate::generator::{Generator, GeneratorConfig};
use vstd::arithmetic::div_mod::{lemma_mod_multiples_vanish, lemma_small_mod};
use vstd::prelude::*;

verus! {

/// Configuration for the clock generator. The waveform amplitudes only
/// scale the wave and are applied by the caller; the shape of the wave is
/// fully determined by these two counts.
#[derive(Clone, Copy)]
pub struct ClockConfig {
    /// Number of samples.
    pub num_samples: usize,
    /// Number of clock cycles over those samples.
    pub num_cycles: usize,
}

impl GeneratorConfig for ClockConfig {

}

/// One sample of one clock channel: the exact position in the smoothed
/// trapezoidal wave. `Rise` and `Fall` carry the position inside the
/// quarter-cycle transition as the fraction `numerator / denominator`,
/// with `0` the start of the transition; `High` and `Low` are the plateaus.
#[derive(Clone, Copy, Debug, PartialEq, Eq, Structural)]
pub enum ClockSegment {
    Rise { numerator: usize, denominator: usize },
    High,
    Fall { numerator: usize, denominator: usize },
    Low,
}

/// Samples per clock cycle.
pub open spec fn spec_samples_per_cycle(c: ClockConfig) -> int {
    c.num_samples as int / c.num_cycles as int
}

/// Position of channel `i` at sample `s` within the cycle, counted in
/// quarters of `spc` samples: the wave of channel `i` lags channel 0 by
/// `i` quarter cycles.
pub open spec fn spec_clock_numerator(spc: int, i: int, s: int) -> int {
    (4 * (s % spc) - i * spc) % (4 * spc)
}

/// The wave segment of channel `i` at sample `s`: one quarter cycle rising,
/// one high, one falling, one low.
pub open spec fn spec_clock_segment(spc: int, i: int, s: int) -> ClockSegment {
    let n = spec_clock_numerator(spc, i, s);
    if n < spc {
        ClockSegment::Rise { numerator: n as usize, denominator: spc as usize }
    } else if n < 2 * spc {
        ClockSegment::High
    } else if n < 3 * spc {
        ClockSegment::Fall { numerator: (n - 2 * spc) as usize, denominator: spc as usize }
    } else {
        ClockSegment::Low
    }
}

/// A transition position always lies in `[0, 1)` of its quarter cycle, so
/// the eased wave never leaves the band between its two plateaus.
pub open spec fn spec_segment_wf(seg: ClockSegment, spc: int) -> bool {
    match seg {
        ClockSegment::Rise { numerator, denominator } => denominator == spc && numerator
            < denominator,
        ClockSegment::Fall { numerator, denominator } => denominator == spc && numerator
            < denominator,
        ClockSegment::High => true,
        ClockSegment::Low => true,
    }
}

/// Generator for the four phase-shifted clock channels.
pub struct ClockGenerator {
    config: ClockConfig,
}

impl ClockGenerator {
    #[verifier::type_invariant]
    pub closed spec fn type_inv(self) -> bool {
        &&& self.config.num_cycles > 0
        &&& spec_samples_per_cycle(self.config) >= 1
    }

    /// The configuration this generator was created from.
    pub closed spec fn spec_config(self) -> ClockConfig {
        self.config
    }

    /// Creates the generator; the sample count must allow at least one full
    /// sample per cycle.
    pub fn new(config: ClockConfig) -> (r: Self)
        requires
            config.num_cycles > 0,
            config.num_samples >= config.num_cycles,
        ensures
            r.spec_config() == config,
    {
        proof {
            assert(config.num_samples as int / config.num_cycles as int >= 1) by (nonlinear_arith)
                requires
                    config.num_samples >= config.num_cycles > 0,
            ;
        }
        Self { config }
    }

    /// The segment of one channel at one in-cycle position `r`.
    fn channel_segment(spc: usize, i: usize, r: usize, Ghost(s): Ghost<int>) -> (seg: ClockSegment)
        requires
            0 < spc,
            i < 4,
            r < spc,
            s >= 0,
            r == s % (spc as int),
        ensures
            seg == spec_clock_segment(spc as int, i as int, s),
    {
        proof {
            assert(forall|a: int, b: int|
                0 <= a <= 4 && 0 <= b < 0x10000000000000000 ==> 0 <= #[trigger] (a * b)
                    <= 0x40000000000000000) by (nonlinear_arith);
        }
        let spc_w = spc as u128;
        let shifted = 4 * (r as u128) + (4 - i as u128) * spc_w;
        let q = shifted % (4 * spc_w);
        proof {
            let spci = spc as int;
            lemma_mod_multiples_vanish(1, 4 * r - i * spci, 4 * spci);
            assert(shifted == 4 * r + (4 - i) * spci);
            assert((4 - i) * spci == 4 * spci - i * spci) by (nonlinear_arith);
            assert(4 * r + (4 - i) * spci == (4 * spci) * 1 + (4 * r - i * spci));
            assert(q == spec_clock_numerator(spci, i as int, s));
            assert(0 <= q < 4 * spci);
        }
        if q < spc_w {
            ClockSegment::Rise { numerator: q as usize, denominator: spc }
        } else if q < 2 * spc_w {
            ClockSegment::High
        } else if q < 3 * spc_w {
            ClockSegment::Fall { numerator: (q - 2 * spc_w) as usize, denominator: spc }
        } else {
            ClockSegment::Low
        }
    }
}

impl Generator for ClockGenerator {
    type Config = ClockConfig;

    type Output = [ClockSegment; 4];

    fn generate(&self, sample: usize) -> (r: Option<[ClockSegment; 4]>)
        ensures
            r is Some <==> sample < self.spec_config().num_samples,
            r matches Some(v) ==> forall|i: int|
                0 <= i < 4 ==> #[trigger] v[i] == spec_clock_segment(
                    spec_samples_per_cycle(self.spec_config()),
                    i,
                    sample as int,
                ),
    {
        proof {
            use_type_invariant(self);
        }
        if sample >= self.config.num_samples {
            return None;
        }
        let spc = self.config.num_samples / self.config.num_cycles;
        let r = sample % spc;
        let seg0 = Self::channel_segment(spc, 0, r, Ghost(sample as int));
        let seg1 = Self::channel_segment(spc, 1, r, Ghost(sample as int));
        let seg2 = Self::channel_segment(spc, 2, r, Ghost(sample as int));
        let seg3 = Self::channel_segment(spc, 3, r, Ghost(sample as int));
        Some([seg0, seg1, seg2, seg3])
    }

    fn num_samples(&self) -> (r: usize)
        ensures
            r == self.spec_config().num_samples,
    {
        self.config.num_samples
    }
}

/// Every segment the generator hands out keeps its transition position
/// inside its quarter cycle, so each channel's value stays between the two
/// plateau amplitudes.
pub proof fn lemma_clock_segment_wf(spc: int, i: int, s: int)
    requires
        0 < spc <= usize::MAX,
        0 <= i < 4,
        s >= 0,
    ensures
        spec_segment_wf(spec_clock_segment(spc, i, s), spc),
{
    vstd::arithmetic::div_mod::lemma_mod_bound(4 * (s % spc) - i * spc, 4 * spc);
}

/// The four channels are one wave, each shifted by a quarter cycle: channel
/// `i`, read `i` quarter cycles later, shows exactly what channel 0 shows
/// now. This needs the cycle length to split into whole quarters.
pub proof fn lemma_clock_quarter_shift(spc: int, i: int, s: int)
    requires
        spc > 0,
        spc % 4 == 0,
        0 <= i < 4,
        s >= 0,
    ensures
        spec_clock_segment(spc, i, s + i * (spc / 4)) == spec_clock_segment(spc, 0, s),
{
    let q = spc / 4;
    let r0 = s % spc;
    let s2 = s + i * q;
    let r2 = s2 % spc;
    assert(spc == 4 * q);
    assert(0 <= r0 < spc) by {
        vstd::arithmetic::div_mod::lemma_mod_bound(s, spc);
    }
    assert(r2 == (r0 + i * q) % spc) by {
        lemma_mod_multiples_vanish(s / spc, r0 + i * q, spc);
        assert(s2 == spc * (s / spc) + (r0 + i * q)) by {
            vstd::arithmetic::div_mod::lemma_fundamental_div_mod(s, spc);
        }
    }
    if r0 + i * q < spc {
        assert(r2 == r0 + i * q) by {
            lemma_small_mod((r0 + i * q) as nat, spc as nat);
        }
        assert(4 * r2 - i * spc == 4 * r0);
        assert(spec_clock_numerator(spc, i, s2) == (4 * r0) % (4 * spc));
    } else {
        assert(r0 + i * q < 2 * spc);
        assert(r2 == r0 + i * q - spc) by {
            lemma_mod_multiples_vanish(1, r0 + i * q - spc, spc);
            lemma_small_mod((r0 + i * q - spc) as nat, spc as nat);
        }
        assert(4 * r2 - i * spc == 4 * r0 - 4 * spc);
        assert((4 * r0 - 4 * spc) % (4 * spc) == (4 * r0) % (4 * spc)) by {
            lemma_mod_multiples_vanish(1, 4 * r0 - 4 * spc, 4 * spc);
        }
        assert(spec_clock_numerator(spc, i, s2) == (4 * r0) % (4 * spc));
    }
    assert(spec_clock_numerator(spc, 0, s) == (4 * r0) % (4 * spc));
}

} // verus!
