use qca_core::cell::{
    dot_probability_distribution_to_polarization, dot_probability_distribution_to_polarization_checked,
    polarization_to_dot_probability_distribution, polarization_to_dot_probability_distribution_checked,
    DistributionError,
};

const ONE: i64 = 1_000_000;
const HALF: i64 = 500_000;
const QUARTER: i64 = 250_000;

#[test]
fn test_dot_probability_distribution_to_polarization_valid_cases() {
    // Tests for 4-element distribution
    let distribution = vec![HALF; 4];
    let polarization = dot_probability_distribution_to_polarization(&distribution);
    assert_eq!(polarization, vec![0]);

    let distribution = vec![ONE, 0, ONE, 0];
    let polarization = dot_probability_distribution_to_polarization(&distribution);
    assert_eq!(polarization, vec![ONE]);

    let distribution = vec![0, ONE, 0, ONE];
    let polarization = dot_probability_distribution_to_polarization(&distribution);
    assert_eq!(polarization, vec![-ONE]);

    // Tests for 8-element distribution
    let distribution = vec![QUARTER; 8];
    let polarization = dot_probability_distribution_to_polarization(&distribution);
    assert_eq!(polarization, vec![0, 0]);

    let distribution = vec![ONE, 0, 0, 0, ONE, 0, 0, 0];
    let polarization = dot_probability_distribution_to_polarization(&distribution);
    assert_eq!(polarization, vec![ONE, 0]);

    let distribution = vec![0, ONE, 0, 0, 0, ONE, 0, 0];
    let polarization = dot_probability_distribution_to_polarization(&distribution);
    assert_eq!(polarization, vec![0, ONE]);

    let distribution = vec![0, 0, ONE, 0, 0, 0, ONE, 0];
    let polarization = dot_probability_distribution_to_polarization(&distribution);
    assert_eq!(polarization, vec![-ONE, 0]);

    let distribution = vec![0, 0, 0, ONE, 0, 0, 0, ONE];
    let polarization = dot_probability_distribution_to_polarization(&distribution);
    assert_eq!(polarization, vec![0, -ONE]);
}

#[test]
fn test_polarization_to_dot_probability_distribution_valid_cases() {
    // Tests for 1-element polarization
    let polarization = vec![0];
    let distribution = polarization_to_dot_probability_distribution(&polarization);
    assert_eq!(distribution, vec![HALF; 4]);

    let polarization = vec![ONE];
    let distribution = polarization_to_dot_probability_distribution(&polarization);
    assert_eq!(distribution, vec![ONE, 0, ONE, 0]);

    let polarization = vec![-ONE];
    let distribution = polarization_to_dot_probability_distribution(&polarization);
    assert_eq!(distribution, vec![0, ONE, 0, ONE]);

    // Tests for 2-element polarization
    let polarization = vec![0, 0];
    let distribution = polarization_to_dot_probability_distribution(&polarization);
    assert_eq!(distribution, vec![QUARTER; 8]);

    let polarization = vec![ONE, 0];
    let distribution = polarization_to_dot_probability_distribution(&polarization);
    assert_eq!(distribution, vec![ONE, 0, 0, 0, ONE, 0, 0, 0]);

    let polarization = vec![0, ONE];
    let distribution = polarization_to_dot_probability_distribution(&polarization);
    assert_eq!(distribution, vec![0, ONE, 0, 0, 0, ONE, 0, 0]);

    let polarization = vec![-ONE, 0];
    let distribution = polarization_to_dot_probability_distribution(&polarization);
    assert_eq!(distribution, vec![0, 0, ONE, 0, 0, 0, ONE, 0]);

    let polarization = vec![0, -ONE];
    let distribution = polarization_to_dot_probability_distribution(&polarization);
    assert_eq!(distribution, vec![0, 0, 0, ONE, 0, 0, 0, ONE]);
}

#[test]
fn distribution_rejects_sum_off_by_more_than_tolerance() {
    // 0.5 + 0.5 + 0.5 + 0.4 sums to 1.9, well outside the 1e-6 band.
    let distribution = vec![HALF, HALF, HALF, 400_000];
    let r = dot_probability_distribution_to_polarization_checked(&distribution);
    assert_eq!(r, Err(DistributionError::InvalidSum));
}

#[test]
fn distribution_sum_check_runs_before_length_check() {
    // A three-dot vector fails on its sum first, as the length never gets
    // a say when the total is already wrong.
    let distribution = vec![HALF, HALF, HALF];
    let r = dot_probability_distribution_to_polarization_checked(&distribution);
    assert_eq!(r, Err(DistributionError::InvalidSum));
}

#[test]
fn distribution_rejects_unsupported_length_with_good_sum() {
    let distribution = vec![ONE, ONE, 0, 0, 0];
    let r = dot_probability_distribution_to_polarization_checked(&distribution);
    assert_eq!(r, Err(DistributionError::InvalidLength));
}

#[test]
fn distribution_accepts_sum_within_tolerance() {
    let distribution = vec![ONE, 0, ONE, 1];
    let r = dot_probability_distribution_to_polarization_checked(&distribution);
    assert!(r.is_ok());
}

#[test]
fn polarization_rejects_abs_sum_above_one() {
    let polarization = vec![-1_100_000];
    let r = polarization_to_dot_probability_distribution_checked(&polarization);
    assert_eq!(r, Err(DistributionError::InvalidAbsSum));
}

#[test]
fn polarization_rejects_unsupported_length() {
    let polarization = vec![HALF, 400_000, 100_000];
    let r = polarization_to_dot_probability_distribution_checked(&polarization);
    assert_eq!(r, Err(DistributionError::InvalidLength));
}

#[test]
fn distribution_round_trip_four_dots() {
    for d in [
        vec![ONE, 0, ONE, 0],
        vec![HALF, HALF, HALF, HALF],
        vec![700_000, 300_000, 700_000, 300_000],
    ] {
        let p = dot_probability_distribution_to_polarization(&d);
        let back = polarization_to_dot_probability_distribution(&p);
        assert_eq!(back, d);
    }
}

#[test]
fn distribution_round_trip_eight_dots() {
    let d = vec![ONE, 0, 0, 0, ONE, 0, 0, 0];
    let p = dot_probability_distribution_to_polarization(&d);
    assert_eq!(p, vec![ONE, 0]);
    let back = polarization_to_dot_probability_distribution(&p);
    assert_eq!(back, d);

    // A distribution whose two axes carry different spread weights is not
    // of the shape the encoding produces, and does not come back.
    let d = vec![400_000, 300_000, 200_000, 100_000, 400_000, 300_000, 200_000, 100_000];
    let p = dot_probability_distribution_to_polarization(&d);
    let back = polarization_to_dot_probability_distribution(&p);
    assert_ne!(back, d);

    // With one shared spread weight of 0.1 per axis it does.
    let d = vec![400_000, 400_000, 100_000, 100_000, 400_000, 400_000, 100_000, 100_000];
    let p = dot_probability_distribution_to_polarization(&d);
    let back = polarization_to_dot_probability_distribution(&p);
    assert_eq!(back, d);
}

#[test]
fn encoding_keeps_the_sum_exact_on_uneven_spreads() {
    // 0.333333 leaves an odd spread; the division remainder joins the
    // half's last slot, keeping the sum at exactly 2.0 and the output
    // inside the decoder's acceptance band.
    let p = vec![333_333i64];
    let d = polarization_to_dot_probability_distribution(&p);
    assert_eq!(d, vec![666_666, 333_334, 666_666, 333_334]);
    assert_eq!(d.iter().sum::<i64>(), 2 * ONE);
    // The decoder accepts the encoder's own output; the extra unit shifts
    // this axis's reading by one millionth.
    let back = dot_probability_distribution_to_polarization(&d);
    assert_eq!(back, vec![333_332]);

    // Two axes: the remainder of an uneven four-way split sits in the
    // second axis's negative slot.
    let p = vec![100_000i64, 233_333];
    let d = polarization_to_dot_probability_distribution(&p);
    assert_eq!(d.iter().sum::<i64>(), 2 * ONE);
}

#[test]
fn polarization_round_trip_is_exact_on_even_spreads() {
    let p = vec![400_000i64];
    let d = polarization_to_dot_probability_distribution(&p);
    let back = dot_probability_distribution_to_polarization(&d);
    assert_eq!(back, p);

    let p = vec![300_000i64, 200_000];
    let d = polarization_to_dot_probability_distribution(&p);
    assert_eq!(d.iter().sum::<i64>(), 2 * ONE);
    let back = dot_probability_distribution_to_polarization(&d);
    assert_eq!(back, p);
}
