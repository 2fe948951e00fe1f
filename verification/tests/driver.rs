use qca_core::cell::QCACellIndex;
use qca_core::driver::{
    get_num_samples, should_continue_relaxation, SimulationCancelRequest, SimulationProgress,
    SimulationRun,
};

#[test]
fn relaxation_stops_at_the_iteration_cap() {
    assert!(should_continue_relaxation(false, 0, 10));
    assert!(should_continue_relaxation(false, 9, 10));
    assert!(!should_continue_relaxation(false, 10, 10));
    assert!(!should_continue_relaxation(true, 0, 10));
    // A cap of zero runs no sweep at all.
    assert!(!should_continue_relaxation(false, 0, 0));
}

#[test]
fn run_records_one_sample_per_cell_even_without_sweeps() {
    // With max_iterations = 0 the relaxation loop never runs, but every
    // sample still appends one value per channel and per recorded cell.
    let stored = vec![QCACellIndex::new(0, 0), QCACellIndex::new(0, 2)];
    let mut run = SimulationRun::new(stored, 3, 1, &None);
    let mut recorded: usize = 0;
    while run.begin_sample(&mut None, &None) {
        assert!(!should_continue_relaxation(false, 0, 0));
        run.record_sample(&[1, 2, 3, 4], &vec![vec![10], vec![20]]);
        recorded += 1;
    }
    assert_eq!(recorded, 3);
    let data = run.finish(&None);
    assert_eq!(data.metadata.num_samples, 3);
    for channel in &data.clock_data {
        assert_eq!(channel.len(), 3);
    }
    assert_eq!(data.cells_data.len(), 2);
    for cell in &data.cells_data {
        assert_eq!(cell.data.len(), 3);
    }
    assert_eq!(data.clock_data[0], vec![1, 1, 1]);
    assert_eq!(data.cells_data[1].data, vec![20, 20, 20]);
}

#[test]
fn cancellation_before_the_first_sample_yields_an_empty_run() {
    let (tx, rx) = tokio::sync::oneshot::channel::<SimulationCancelRequest>();
    tx.send(SimulationCancelRequest {}).unwrap();
    let mut cancel = Some(rx);
    let stored = vec![QCACellIndex::new(0, 0)];
    let mut samples: usize = 0;
    let mut run = SimulationRun::new(stored, 5, 1, &None);
    while run.begin_sample(&mut cancel, &None) {
        run.record_sample(&[0, 0, 0, 0], &vec![vec![0]]);
        samples += 1;
    }
    assert_eq!(samples, 0);
    let data = run.finish(&None);
    assert_eq!(data.metadata.num_samples, 0);
    for channel in &data.clock_data {
        assert_eq!(channel.len(), 0);
    }
    assert_eq!(data.cells_data[0].data.len(), 0);
}

#[test]
fn cancellation_after_k_samples_keeps_series_of_length_k() {
    let (tx, rx) = tokio::sync::oneshot::channel::<SimulationCancelRequest>();
    let mut cancel = Some(rx);
    let stored = vec![QCACellIndex::new(0, 0), QCACellIndex::new(1, 0)];
    let mut run = SimulationRun::new(stored, 10, 2, &None);
    let mut done: usize = 0;
    let mut tx = Some(tx);
    while run.begin_sample(&mut cancel, &None) {
        run.record_sample(&[9, 8, 7, 6], &vec![vec![1, 2], vec![3, 4]]);
        done += 1;
        if done == 4 {
            tx.take().unwrap().send(SimulationCancelRequest {}).unwrap();
        }
    }
    assert_eq!(done, 4);
    let data = run.finish(&None);
    assert_eq!(data.metadata.num_samples, 4);
    for channel in &data.clock_data {
        assert_eq!(channel.len(), 4);
    }
    for cell in &data.cells_data {
        // Two polarization values per sample.
        assert_eq!(cell.data.len(), 8);
    }
}

#[test]
fn progress_events_arrive_in_order_and_never_block() {
    let (tx, rx) = std::sync::mpsc::channel::<SimulationProgress>();
    let progress = Some(tx);
    let stored = vec![QCACellIndex::new(0, 0)];
    let mut run = SimulationRun::new(stored, 2, 1, &progress);
    while run.begin_sample(&mut None, &progress) {
        run.record_sample(&[0, 0, 0, 0], &vec![vec![0]]);
    }
    let data = run.finish(&progress);
    assert_eq!(data.metadata.num_samples, 2);
    drop(progress);
    let events: Vec<SimulationProgress> = rx.iter().collect();
    assert_eq!(events.len(), 4);
    assert!(matches!(events[0], SimulationProgress::Initializing));
    assert!(matches!(
        events[1],
        SimulationProgress::Running { current_sample: 0, total_samples: 2 }
    ));
    assert!(matches!(
        events[2],
        SimulationProgress::Running { current_sample: 1, total_samples: 2 }
    ));
    assert!(matches!(events[3], SimulationProgress::Deinitializng));
}

#[test]
fn dropped_progress_receiver_does_not_fail_the_run() {
    let (tx, rx) = std::sync::mpsc::channel::<SimulationProgress>();
    drop(rx);
    let progress = Some(tx);
    let stored = vec![QCACellIndex::new(0, 0)];
    let mut run = SimulationRun::new(stored, 1, 1, &progress);
    while run.begin_sample(&mut None, &progress) {
        run.record_sample(&[0, 0, 0, 0], &vec![vec![0]]);
    }
    let data = run.finish(&progress);
    assert_eq!(data.metadata.num_samples, 1);
}

#[test]
fn run_metadata_carries_version_and_cells() {
    let stored = vec![QCACellIndex::new(2, 7)];
    let run = SimulationRun::new(stored, 0, 1, &None);
    let data = run.finish(&None);
    assert_eq!(data.metadata.qca_core_version, "0.1.0");
    assert_eq!(data.metadata.stored_cells, vec![QCACellIndex::new(2, 7)]);
    assert_eq!(data.metadata.num_samples, 0);
    assert_eq!(qca_core::get_qca_core_version(), "0.1.0");
}

#[test]
fn planned_sample_count_follows_the_input_combinatorics() {
    // One input, one axis, 20 samples per combination, no extra periods:
    // 20 * (1 + 1) ^ 1 = 40 samples.
    assert_eq!(get_num_samples(1, 1, 20, 0), 40);
    // Extra periods add extra_periods * polarization_n whole dwell times.
    assert_eq!(get_num_samples(1, 1, 20, 2), 40 + 2 * 20);
    assert_eq!(get_num_samples(2, 2, 5, 1), 5 * 9 + 2 * 5);
}
