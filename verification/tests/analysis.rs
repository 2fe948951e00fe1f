use qca_core::basis::{
    capture_operator, coulumb_operator, count_operator, generate_basis_matrix, tunneling_operator,
};
use qca_core::truth_table::{
    clean_clock_regions, generate_clock_regions, generate_logical_value, validate_cell_delay,
    ClockRegion, TruthTable,
};

#[test]
fn basis_matrix_for_two_dots_matches_the_occupation_layout() {
    // Rows are two-particle states; the first two columns are the
    // spin-up slots of dots 0 and 1, the last two the spin-down slots.
    let m = generate_basis_matrix(2);
    assert_eq!(m.len(), 4);
    assert_eq!(m[0], vec![0, 1, 0, 1]);
    assert_eq!(m[1], vec![0, 1, 1, 0]);
    assert_eq!(m[2], vec![1, 0, 0, 1]);
    assert_eq!(m[3], vec![1, 0, 1, 0]);
}

#[test]
fn basis_matrix_rows_are_one_hot_per_spin_half() {
    let n = 4;
    let m = generate_basis_matrix(n);
    assert_eq!(m.len(), n * n);
    for row in &m {
        assert_eq!(row.len(), 2 * n);
        assert_eq!(row[..n].iter().map(|v| *v as usize).sum::<usize>(), 1);
        assert_eq!(row[n..].iter().map(|v| *v as usize).sum::<usize>(), 1);
    }
}

#[test]
fn occupation_operators_read_the_basis_row() {
    let m = generate_basis_matrix(2);
    // Row 3: spin-up on dot 0, spin-down on dot 0.
    assert_eq!(count_operator(2, 0, 1, &m[3]), 1);
    assert_eq!(count_operator(2, 1, 1, &m[3]), 0);
    assert_eq!(count_operator(2, 0, 0, &m[3]), 1);
    assert_eq!(capture_operator(2, 0, &m[3]), 1);
    assert_eq!(capture_operator(2, 1, &m[3]), 0);
    // Row 1: spin-up on dot 1, spin-down on dot 0: an opposite-spin pair
    // over the two dots.
    assert_eq!(capture_operator(2, 0, &m[1]), 0);
    assert_eq!(coulumb_operator(2, 1, 0, 1, &m[1]), 1);
    assert_eq!(coulumb_operator(2, 0, 1, 1, &m[1]), 0);
}

#[test]
fn tunneling_swaps_one_spin_and_skips_fixed_states() {
    let m = generate_basis_matrix(2);
    // Row 1 is [0, 1, 1, 0]: moving the spin-up electron from dot 1 to
    // dot 0 gives [1, 0, 1, 0], which is row 3.
    let moved = tunneling_operator(2, 0, 1, 1, &m[1]);
    assert_eq!(moved, m[3]);
    // The spin-down half of row 3 occupies dot 0 alone; swapping the two
    // spin-down slots changes it.
    let moved = tunneling_operator(2, 0, 1, 0, &m[3]);
    assert_eq!(moved, vec![1, 0, 0, 1]);
    // A swap between two equally occupied slots leaves nothing to move:
    // the operator returns the matchless zero vector.
    let same = tunneling_operator(2, 0, 0, 1, &m[1]);
    assert_eq!(same, vec![0, 0, 0, 0]);
}

#[test]
fn clock_regions_are_maximal_runs_above_threshold() {
    let mask = vec![false, true, true, false, false, true, true, true, false, true];
    let masks = [mask.clone(), vec![false; 10], vec![true; 10], vec![]];
    let regions = generate_clock_regions(&masks);
    assert_eq!(
        regions[0],
        vec![
            ClockRegion { start: 1, end: 2 },
            ClockRegion { start: 5, end: 7 },
            ClockRegion { start: 9, end: 9 },
        ]
    );
    assert_eq!(regions[1], vec![]);
    assert_eq!(regions[2], vec![ClockRegion { start: 0, end: 9 }]);
    assert_eq!(regions[3], vec![]);
}

#[test]
fn cleaning_drops_runs_that_start_before_lower_channels() {
    let mut regions = [
        vec![ClockRegion { start: 0, end: 3 }, ClockRegion { start: 10, end: 13 }],
        vec![ClockRegion { start: 2, end: 5 }],
        vec![ClockRegion { start: 4, end: 7 }],
        vec![ClockRegion { start: 1, end: 8 }],
    ];
    clean_clock_regions(&mut regions);
    // Channel 3 started before channels 0..2 and drops its first run;
    // the lower channels keep theirs.
    assert_eq!(
        regions[0],
        vec![ClockRegion { start: 0, end: 3 }, ClockRegion { start: 10, end: 13 }]
    );
    assert_eq!(regions[1], vec![ClockRegion { start: 2, end: 5 }]);
    assert_eq!(regions[2], vec![ClockRegion { start: 4, end: 7 }]);
    assert_eq!(regions[3], vec![]);
}

#[test]
fn logical_value_needs_a_clear_majority() {
    let symbols = vec![
        Some('A'),
        Some('A'),
        Some('A'),
        Some('B'),
        None,
        Some('A'),
        Some('B'),
        Some('B'),
    ];
    let region = ClockRegion { start: 0, end: 6 };
    // Four of six samples read A.
    assert_eq!(generate_logical_value(&symbols, &region, 600_000), Some('A'));
    // Asking for at least 80% of the region leaves no winner.
    assert_eq!(generate_logical_value(&symbols, &region, 800_000), None);
    // A region dominated by absent readings yields no value.
    let quiet = vec![None, None, None, Some('B')];
    let region = ClockRegion { start: 0, end: 4 };
    assert_eq!(generate_logical_value(&quiet, &region, 500_000), None);
}

#[test]
fn truth_table_renders_tab_separated_rows() {
    let table = TruthTable {
        entries: vec![
            ("in".to_string(), vec![Some('A'), Some('B')]),
            ("out".to_string(), vec![Some('B')]),
        ],
    };
    let text = table.to_text();
    assert_eq!(text, "in\tout\t\nA\tB\t\nB\tNaN\t");
}

#[test]
fn cell_delay_arguments_split_at_the_colon() {
    assert_eq!(validate_cell_delay("3-4:2").unwrap(), ("3-4".to_string(), 2));
    assert_eq!(validate_cell_delay("carry:10").unwrap(), ("carry".to_string(), 10));
    assert!(validate_cell_delay("carry").is_err());
    assert!(validate_cell_delay("a:b:1").is_err());
    assert!(validate_cell_delay("carry:x").is_err());
    assert!(validate_cell_delay("carry:").is_err());
}

#[test]
fn cell_delay_labels_may_hold_any_text() {
    let (label, delay) = validate_cell_delay("carry λ2:7").unwrap();
    assert_eq!(label, "carry λ2");
    assert_eq!(delay, 7);
}

#[test]
fn single_sample_regions_read_nothing() {
    // A region whose start and end coincide covers no counted samples, so
    // no reading is claimed from it.
    let symbols = vec![Some('A'); 4];
    let region = ClockRegion { start: 2, end: 2 };
    assert_eq!(generate_logical_value(&symbols, &region, 0), None);
    assert_eq!(generate_logical_value(&symbols, &region, 1_000_000), None);
}
