use crate::cell::to_ints;
use crate::generator::{Generator, GeneratorConfig};
use vstd::arithmetic::div_mod::lemma_div_denominator;
use vstd::arithmetic::power::{lemma_pow1, lemma_pow_adds, pow};
use vstd::prelude::*;

verus! {

/// Configuration for the cell input generator.
#[derive(Clone, Copy)]
pub struct CellInputConfig {
    /// Number of samples each input combination is held for.
    pub num_samples_per_combination: usize,
    /// Number of cell inputs.
    pub num_inputs: usize,
    /// Number of polarization axes per input.
    pub num_polarization: usize,
    /// Number of trailing all-zero periods.
    pub extra_clock_periods: usize,
}

impl GeneratorConfig for CellInputConfig {

}

/// Number of input combinations the generator enumerates.
pub open spec fn spec_input_combinations(c: CellInputConfig) -> int {
    pow((c.num_polarization + 1) as int, c.num_inputs as nat)
}

/// Number of trailing quiescent samples.
pub open spec fn spec_extra_samples(c: CellInputConfig) -> int {
    c.extra_clock_periods * c.num_samples_per_combination
}

/// Total number of samples: one dwell period per combination plus the
/// trailing quiescent periods.
pub open spec fn spec_total_samples(c: CellInputConfig) -> int {
    c.num_samples_per_combination * spec_input_combinations(c) + spec_extra_samples(c)
}

/// Digit `k` of a combination index written in base `base`: the state of
/// input `k` in that combination.
pub open spec fn spec_combination_digit(idx: int, base: int, k: int) -> int {
    (idx / pow(base, k as nat)) % base
}

/// Signal for one polarization axis of one input: state `0` is quiet, and
/// state `s >= 1` drives axis `(s - 1) / 2`, odd states to +1 and even
/// states to -1.
pub open spec fn spec_signal_value(state: int, pol_idx: int) -> int {
    if state == 0 {
        0
    } else if (state - 1) / 2 == pol_idx {
        if state % 2 == 1 {
            1
        } else {
            -1
        }
    } else {
        0
    }
}

/// The full output vector at one sample: all zeros in the trailing quiescent
/// region, otherwise the decoded one-hot-per-input signals of the combination
/// the sample dwells in.
pub open spec fn spec_input_sample(c: CellInputConfig, sample: int) -> Seq<int> {
    let width = (c.num_inputs * c.num_polarization) as nat;
    if sample >= spec_total_samples(c) - spec_extra_samples(c) {
        Seq::new(width, |j: int| 0)
    } else {
        let ci = sample / c.num_samples_per_combination as int;
        Seq::new(
            width,
            |j: int|
                spec_signal_value(
                    spec_combination_digit(
                        ci,
                        (c.num_polarization + 1) as int,
                        j / c.num_polarization as int,
                    ),
                    j % c.num_polarization as int,
                ),
        )
    }
}

/// Generator enumerating every combination of input states, each held for a
/// fixed dwell time, with optional all-zero settling periods at the end.
pub struct CellInputGenerator {
    config: CellInputConfig,
    num_samples: usize,
    extra_samples: usize,
}

impl CellInputGenerator {
    #[verifier::type_invariant]
    pub closed spec fn type_inv(self) -> bool {
        &&& self.num_samples == spec_total_samples(self.config)
        &&& self.extra_samples == spec_extra_samples(self.config)
        &&& spec_total_samples(self.config) <= usize::MAX
        &&& self.config.num_inputs * self.config.num_polarization <= usize::MAX
        &&& self.config.num_polarization < usize::MAX
    }

    /// The configuration this generator was created from.
    pub closed spec fn spec_config(self) -> CellInputConfig {
        self.config
    }

    /// Creates the generator. The bounds only ask that the derived sample
    /// and vector counts fit the machine's word size.
    pub fn new(config: CellInputConfig) -> (r: Self)
        requires
            spec_input_combinations(config) <= usize::MAX,
            spec_total_samples(config) <= usize::MAX,
            config.num_inputs * config.num_polarization <= usize::MAX,
            config.num_polarization < usize::MAX,
        ensures
            r.spec_config() == config,
    {
        let base = config.num_polarization + 1;
        let mut input_combinations: usize = 1;
        let mut k: usize = 0;
        proof {
            vstd::arithmetic::power::lemma_pow0(base as int);
        }
        while k < config.num_inputs
            invariant
                0 <= k <= config.num_inputs,
                base == config.num_polarization + 1,
                input_combinations == pow(base as int, k as nat),
                spec_input_combinations(config) <= usize::MAX,
            decreases config.num_inputs - k,
        {
            proof {
                vstd::arithmetic::power::lemma_pow_increases(
                    base as nat,
                    (k + 1) as nat,
                    config.num_inputs as nat,
                );
                lemma_pow_adds(base as int, k as nat, 1);
                lemma_pow1(base as int);
                vstd::arithmetic::power::lemma_pow_positive(base as int, k as nat);
                assert(pow(base as int, (k + 1) as nat) == input_combinations * base);
            }
            input_combinations = input_combinations * base;
            k = k + 1;
        }
        let extra_samples = config.extra_clock_periods * config.num_samples_per_combination;
        let num_samples = config.num_samples_per_combination * input_combinations + extra_samples;
        Self { config, num_samples, extra_samples }
    }

    /// The states of all inputs in the combination with the given index:
    /// its digits in base `num_polarization + 1`.
    fn get_combination(&self, combination_index: usize) -> (r: Vec<usize>)
        ensures
            r@.len() == self.spec_config().num_inputs,
            forall|k: int|
                0 <= k < r@.len() ==> #[trigger] r@[k] == spec_combination_digit(
                    combination_index as int,
                    (self.spec_config().num_polarization + 1) as int,
                    k,
                ),
    {
        proof {
            use_type_invariant(self);
        }
        let base = self.config.num_polarization + 1;
        let ghost ci = combination_index as int;
        let mut combination: Vec<usize> = Vec::new();
        let mut index = combination_index;
        let mut i: usize = 0;
        proof {
            vstd::arithmetic::power::lemma_pow0(base as int);
        }
        while i < self.config.num_inputs
            invariant
                0 <= i <= self.config.num_inputs,
                base == self.config.num_polarization + 1,
                combination@.len() == i,
                index == ci / pow(base as int, i as nat),
                ci == combination_index,
                forall|k: int|
                    0 <= k < i ==> #[trigger] combination@[k] == spec_combination_digit(
                        ci,
                        base as int,
                        k,
                    ),
            decreases self.config.num_inputs - i,
        {
            combination.push(index % base);
            proof {
                vstd::arithmetic::power::lemma_pow_positive(base as int, i as nat);
                lemma_div_denominator(ci, pow(base as int, i as nat), base as int);
                lemma_pow_adds(base as int, i as nat, 1);
                lemma_pow1(base as int);
            }
            index = index / base;
            i = i + 1;
        }
        combination
    }

    /// The signal one input contributes to one polarization axis under a
    /// decoded combination.
    fn generate_signal_value(&self, input_idx: usize, pol_idx: usize, combination: &[usize]) -> (r:
        i64)
        requires
            input_idx < combination@.len(),
        ensures
            r == spec_signal_value(combination@[input_idx as int] as int, pol_idx as int),
    {
        let input_state = combination[input_idx];
        if input_state == 0 {
            0
        } else {
            let polarization_value = (input_state - 1) / 2;
            if polarization_value == pol_idx {
                if input_state % 2 == 1 {
                    1
                } else {
                    -1
                }
            } else {
                0
            }
        }
    }
}

impl Generator for CellInputGenerator {
    type Config = CellInputConfig;

    type Output = Vec<i64>;

    fn generate(&self, sample: usize) -> (r: Option<Vec<i64>>)
        ensures
            r is Some <==> sample < spec_total_samples(self.spec_config()),
            r matches Some(v) ==> to_ints(v@) == spec_input_sample(
                self.spec_config(),
                sample as int,
            ),
    {
        proof {
            use_type_invariant(self);
            vstd::arithmetic::power::lemma_pow_positive(
                (self.config.num_polarization + 1) as int,
                self.config.num_inputs as nat,
            );
            assert(self.config.num_samples_per_combination * spec_input_combinations(self.config)
                >= 0) by (nonlinear_arith)
                requires
                    self.config.num_samples_per_combination >= 0,
                    spec_input_combinations(self.config) >= 0,
            ;
        }
        if sample >= self.num_samples {
            return None;
        }
        let num_inputs = self.config.num_inputs;
        let num_polarization = self.config.num_polarization;
        if sample >= self.num_samples - self.extra_samples {
            let width = num_inputs * num_polarization;
            let mut output: Vec<i64> = Vec::new();
            let mut j: usize = 0;
            while j < width
                invariant
                    output@.len() == j,
                    0 <= j <= width,
                    forall|k: int| 0 <= k < j ==> #[trigger] output@[k] == 0i64,
                decreases width - j,
            {
                output.push(0);
                j = j + 1;
            }
            proof {
                assert(to_ints(output@) =~= spec_input_sample(self.config, sample as int));
            }
            return Some(output);
        }
        let samples_per_combination = self.config.num_samples_per_combination;
        let combination_index = sample / samples_per_combination;
        let combination = self.get_combination(combination_index);

        let mut output: Vec<i64> = Vec::new();
        let mut input_idx: usize = 0;
        while input_idx < num_inputs
            invariant
                0 <= input_idx <= num_inputs,
                num_inputs == self.spec_config().num_inputs,
                num_polarization == self.spec_config().num_polarization,
                num_inputs * num_polarization <= usize::MAX,
                combination@.len() == num_inputs,
                forall|k: int|
                    0 <= k < num_inputs ==> #[trigger] combination@[k] == spec_combination_digit(
                        combination_index as int,
                        (num_polarization + 1) as int,
                        k,
                    ),
                output@.len() == input_idx * num_polarization,
                forall|k: int|
                    0 <= k < output@.len() ==> #[trigger] output@[k] == spec_signal_value(
                        combination@[k / num_polarization as int] as int,
                        k % num_polarization as int,
                    ),
            decreases num_inputs - input_idx,
        {
            let mut pol_idx: usize = 0;
            proof {
                assert(input_idx * num_polarization + num_polarization == (input_idx + 1)
                    * num_polarization) by (nonlinear_arith);
                assert((input_idx + 1) * num_polarization <= num_inputs * num_polarization)
                    by (nonlinear_arith)
                    requires
                        0 <= input_idx + 1 <= num_inputs,
                        num_polarization >= 0,
                ;
            }
            while pol_idx < num_polarization
                invariant
                    0 <= pol_idx <= num_polarization,
                    0 <= input_idx < num_inputs,
                    num_inputs == self.spec_config().num_inputs,
                    num_polarization == self.spec_config().num_polarization,
                    combination@.len() == num_inputs,
                    forall|k: int|
                        0 <= k < num_inputs ==> #[trigger] combination@[k]
                            == spec_combination_digit(
                            combination_index as int,
                            (num_polarization + 1) as int,
                            k,
                        ),
                    output@.len() == input_idx * num_polarization + pol_idx,
                    input_idx * num_polarization + num_polarization == (input_idx + 1)
                        * num_polarization,
                    (input_idx + 1) * num_polarization <= num_inputs * num_polarization,
                    num_inputs * num_polarization <= usize::MAX,
                    forall|k: int|
                        0 <= k < output@.len() ==> #[trigger] output@[k] == spec_signal_value(
                            combination@[k / num_polarization as int] as int,
                            k % num_polarization as int,
                        ),
                decreases num_polarization - pol_idx,
            {
                let value = self.generate_signal_value(input_idx, pol_idx, combination.as_slice());
                proof {
                    let j = output@.len() as int;
                    assert(j == input_idx * num_polarization + pol_idx);
                    assert(j / num_polarization as int == input_idx && j % num_polarization as int
                        == pol_idx) by (nonlinear_arith)
                        requires
                            j == input_idx * num_polarization + pol_idx,
                            0 <= pol_idx < num_polarization,
                            0 <= input_idx,
                    ;
                }
                output.push(value);
                pol_idx = pol_idx + 1;
            }
            input_idx = input_idx + 1;
        }
        proof {
            let c = self.config;
            let s = spec_input_sample(c, sample as int);
            let np = num_polarization as int;
            let ni = num_inputs as int;
            assert forall|k: int| 0 <= k < output@.len() implies to_ints(output@)[k] == s[k] by {
                assert(0 <= k / np < ni) by (nonlinear_arith)
                    requires
                        0 <= k < ni * np,
                        np > 0,
                ;
            }
            assert(to_ints(output@) =~= s);
        }
        Some(output)
    }

    /// Total sample count: `samples_per_combination * (num_polarization + 1)
    /// ^ num_inputs` plus `extra_clock_periods * samples_per_combination`.
    fn num_samples(&self) -> (r: usize)
        ensures
            r == spec_total_samples(self.spec_config()),
    {
        proof {
            use_type_invariant(self);
        }
        self.num_samples
    }
}

} // verus!
