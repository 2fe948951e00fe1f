use qca_core::clock_generator::{ClockConfig, ClockGenerator, ClockSegment};
use qca_core::generator::Generator;
use qca_core::input_generator::{CellInputConfig, CellInputGenerator};

#[test]
fn input_generator_total_samples_match_the_formula() {
    // samples_per_combination * (num_polarization + 1) ^ num_inputs
    //   + extra_clock_periods * samples_per_combination
    let g = CellInputGenerator::new(CellInputConfig {
        num_samples_per_combination: 20,
        num_inputs: 1,
        num_polarization: 1,
        extra_clock_periods: 0,
    });
    assert_eq!(g.num_samples(), 40);

    let g = CellInputGenerator::new(CellInputConfig {
        num_samples_per_combination: 5,
        num_inputs: 2,
        num_polarization: 1,
        extra_clock_periods: 3,
    });
    assert_eq!(g.num_samples(), 5 * 4 + 3 * 5);

    let g = CellInputGenerator::new(CellInputConfig {
        num_samples_per_combination: 7,
        num_inputs: 3,
        num_polarization: 2,
        extra_clock_periods: 2,
    });
    assert_eq!(g.num_samples(), 7 * 27 + 2 * 7);
}

#[test]
fn input_generator_decodes_combinations_one_hot() {
    // Three combinations for one input with two axes: quiet, then +1 and
    // -1 on axis 0, each held for two samples.
    let g = CellInputGenerator::new(CellInputConfig {
        num_samples_per_combination: 2,
        num_inputs: 1,
        num_polarization: 2,
        extra_clock_periods: 0,
    });
    assert_eq!(g.num_samples(), 6);
    assert_eq!(g.generate(0), Some(vec![0, 0]));
    assert_eq!(g.generate(1), Some(vec![0, 0]));
    assert_eq!(g.generate(2), Some(vec![1, 0]));
    assert_eq!(g.generate(3), Some(vec![1, 0]));
    assert_eq!(g.generate(4), Some(vec![-1, 0]));
    assert_eq!(g.generate(5), Some(vec![-1, 0]));
    assert_eq!(g.generate(6), None);
}

#[test]
fn input_generator_dwell_and_settling_periods() {
    let g = CellInputGenerator::new(CellInputConfig {
        num_samples_per_combination: 5,
        num_inputs: 1,
        num_polarization: 1,
        extra_clock_periods: 2,
    });
    // Two combinations of five samples, then two all-zero periods.
    assert_eq!(g.num_samples(), 20);
    for s in 0..5 {
        assert_eq!(g.generate(s), Some(vec![0]));
    }
    for s in 5..10 {
        assert_eq!(g.generate(s), Some(vec![1]));
    }
    for s in 10..20 {
        assert_eq!(g.generate(s), Some(vec![0]));
    }
    assert_eq!(g.generate(20), None);
}

#[test]
fn input_generator_enumerates_every_combination() {
    let g = CellInputGenerator::new(CellInputConfig {
        num_samples_per_combination: 1,
        num_inputs: 2,
        num_polarization: 1,
        extra_clock_periods: 0,
    });
    // Base-2 digits, least significant input first.
    assert_eq!(g.generate(0), Some(vec![0, 0]));
    assert_eq!(g.generate(1), Some(vec![1, 0]));
    assert_eq!(g.generate(2), Some(vec![0, 1]));
    assert_eq!(g.generate(3), Some(vec![1, 1]));
}

#[test]
fn generator_iterator_walks_all_samples() {
    let g = CellInputGenerator::new(CellInputConfig {
        num_samples_per_combination: 1,
        num_inputs: 1,
        num_polarization: 1,
        extra_clock_periods: 0,
    });
    let mut it = g.iter();
    assert_eq!(it.size_hint(), (2, Some(2)));
    assert_eq!(it.next(), Some(vec![0]));
    assert_eq!(it.next(), Some(vec![1]));
    assert_eq!(it.next(), None);
}

#[test]
fn clock_generator_walks_the_four_wave_segments() {
    let g = ClockGenerator::new(ClockConfig { num_samples: 16, num_cycles: 1 });
    assert_eq!(g.num_samples(), 16);
    let s0 = g.generate(0).unwrap();
    assert_eq!(s0[0], ClockSegment::Rise { numerator: 0, denominator: 16 });
    // Halfway through the rising quarter: 4 * 2 of 16 sixteenths.
    let s2 = g.generate(2).unwrap();
    assert_eq!(s2[0], ClockSegment::Rise { numerator: 8, denominator: 16 });
    let s4 = g.generate(4).unwrap();
    assert_eq!(s4[0], ClockSegment::High);
    let s8 = g.generate(8).unwrap();
    assert_eq!(s8[0], ClockSegment::Fall { numerator: 0, denominator: 16 });
    let s12 = g.generate(12).unwrap();
    assert_eq!(s12[0], ClockSegment::Low);
    assert!(g.generate(16).is_none());
}

#[test]
fn clock_channels_are_quarter_cycle_shifts_of_each_other() {
    let g = ClockGenerator::new(ClockConfig { num_samples: 32, num_cycles: 2 });
    let spc = 32 / 2;
    let quarter = spc / 4;
    for s in 0..(32 - 3 * quarter) {
        let base = g.generate(s).unwrap();
        for i in 1..4usize {
            let shifted = g.generate(s + i * quarter).unwrap();
            assert_eq!(shifted[i], base[0]);
        }
    }
}

#[test]
fn clock_values_stay_between_the_amplitudes() {
    // Mapping a segment to its amplitude as the simulation does: the
    // eased position stays within [0, 1], so the value stays between the
    // two plateau levels.
    let amplitude_min = 0.001_f64;
    let amplitude_max = 65.0_f64;
    let eval = |seg: ClockSegment| -> f64 {
        let v = match seg {
            ClockSegment::Rise { numerator, denominator } => {
                let t = numerator as f64 / denominator as f64;
                (1.0 + ((1.0 - t) * std::f64::consts::PI).cos()) / 2.0
            }
            ClockSegment::High => 1.0,
            ClockSegment::Fall { numerator, denominator } => {
                let t = numerator as f64 / denominator as f64;
                (1.0 + (std::f64::consts::PI * t).cos()) / 2.0
            }
            ClockSegment::Low => 0.0,
        };
        -((amplitude_max - amplitude_min) * (1.0 - v) + amplitude_min)
    };
    let g = ClockGenerator::new(ClockConfig { num_samples: 60, num_cycles: 3 });
    for s in 0..60 {
        let segs = g.generate(s).unwrap();
        for seg in segs {
            let value = eval(seg);
            assert!(value <= -amplitude_min + 1e-12);
            assert!(value >= -amplitude_max - 1e-12);
        }
    }
}

#[test]
fn clock_segments_stay_well_formed_off_quarter_grids() {
    // A cycle of 10 samples does not split into whole quarters; the
    // segments still keep their positions inside the quarter.
    let g = ClockGenerator::new(ClockConfig { num_samples: 10, num_cycles: 1 });
    for s in 0..10 {
        for seg in g.generate(s).unwrap() {
            match seg {
                ClockSegment::Rise { numerator, denominator }
                | ClockSegment::Fall { numerator, denominator } => {
                    assert_eq!(denominator, 10);
                    assert!(numerator < denominator);
                }
                ClockSegment::High | ClockSegment::Low => {}
            }
        }
    }
}
