use qca_core::cell::QCACellIndex;
use qca_core::container::{get_sim_data_raw, read_sim_stream};
use qca_core::data::{QCACellData, QCASimulationData};

fn sample_data() -> QCASimulationData {
    let mut data = QCASimulationData::new();
    data.metadata.num_samples = 3;
    data.metadata.stored_cells = vec![QCACellIndex::new(0, 1), QCACellIndex::new(1, 0)];
    data.clock_data = [
        vec![f64::to_bits(-65.0), f64::to_bits(-0.5), f64::to_bits(-0.001)],
        vec![f64::to_bits(1.25), f64::to_bits(0.0), f64::to_bits(-0.0)],
        vec![f64::to_bits(f64::MIN_POSITIVE), f64::to_bits(1e300), f64::to_bits(-1e-300)],
        vec![f64::to_bits(3.5), f64::to_bits(-2.25), f64::to_bits(0.125)],
    ];
    data.cells_data = vec![
        QCACellData::new(QCACellIndex::new(0, 1), 3),
        QCACellData::new(QCACellIndex::new(1, 0), 3),
    ];
    data.cells_data[0].data = vec![f64::to_bits(1.0), f64::to_bits(-1.0), f64::to_bits(0.5)];
    data.cells_data[1].data =
        vec![f64::to_bits(0.25), f64::to_bits(-0.75), f64::to_bits(f64::NAN)];
    data
}

#[test]
fn payload_layout_is_clocks_then_cells_little_endian() {
    let mut data = QCASimulationData::new();
    data.metadata.num_samples = 1;
    data.metadata.stored_cells = vec![QCACellIndex::new(0, 0)];
    data.clock_data = [vec![1], vec![2], vec![3], vec![4]];
    data.cells_data = vec![QCACellData::new(QCACellIndex::new(0, 0), 1)];
    data.cells_data[0].data = vec![0x0102030405060708];
    let raw = get_sim_data_raw(&data);
    assert_eq!(raw.len(), 8 * 5);
    assert_eq!(&raw[0..8], &[1, 0, 0, 0, 0, 0, 0, 0]);
    assert_eq!(&raw[8..16], &[2, 0, 0, 0, 0, 0, 0, 0]);
    assert_eq!(&raw[32..40], &[8, 7, 6, 5, 4, 3, 2, 1]);
}

#[test]
fn container_round_trip_reproduces_bit_exact_series() {
    let data = sample_data();
    let raw = get_sim_data_raw(&data);
    assert_eq!(raw.len(), 8 * (4 * 3 + 3 * 1 * 2));

    let mut read_back = QCASimulationData::new();
    read_back.metadata.num_samples = data.metadata.num_samples;
    read_back.metadata.stored_cells = data.metadata.stored_cells.clone();
    read_sim_stream(&mut read_back, 1, &raw).unwrap();

    assert_eq!(read_back.metadata.num_samples, data.metadata.num_samples);
    assert_eq!(read_back.metadata.stored_cells, data.metadata.stored_cells);
    for i in 0..4 {
        assert_eq!(read_back.clock_data[i], data.clock_data[i]);
    }
    assert_eq!(read_back.cells_data.len(), 2);
    for j in 0..2 {
        assert_eq!(read_back.cells_data[j].index, data.cells_data[j].index);
        assert_eq!(read_back.cells_data[j].data, data.cells_data[j].data);
    }
    // Even the not-a-number pattern comes back bit for bit.
    assert_eq!(
        read_back.cells_data[1].data[2],
        f64::to_bits(f64::NAN)
    );
}

#[test]
fn short_payload_is_rejected() {
    let data = sample_data();
    let mut raw = get_sim_data_raw(&data);
    raw.pop();
    let mut read_back = QCASimulationData::new();
    read_back.metadata.num_samples = data.metadata.num_samples;
    read_back.metadata.stored_cells = data.metadata.stored_cells.clone();
    assert!(read_sim_stream(&mut read_back, 1, &raw).is_err());
}

#[test]
fn trailing_bytes_are_ignored_as_the_reader_is_offset_driven() {
    let data = sample_data();
    let mut raw = get_sim_data_raw(&data);
    raw.push(0xAB);
    let mut read_back = QCASimulationData::new();
    read_back.metadata.num_samples = data.metadata.num_samples;
    read_back.metadata.stored_cells = data.metadata.stored_cells.clone();
    assert!(read_sim_stream(&mut read_back, 1, &raw).is_ok());
    assert_eq!(read_back.clock_data[0], data.clock_data[0]);
}

#[test]
fn container_round_trip_with_two_values_per_cell() {
    let mut data = QCASimulationData::new();
    data.metadata.num_samples = 2;
    data.metadata.stored_cells = vec![QCACellIndex::new(0, 0)];
    data.clock_data = [vec![1, 2], vec![3, 4], vec![5, 6], vec![7, 8]];
    data.cells_data = vec![QCACellData::new(QCACellIndex::new(0, 0), 4)];
    data.cells_data[0].data =
        vec![f64::to_bits(0.5), f64::to_bits(-0.5), f64::to_bits(1.0), f64::to_bits(-1.0)];
    let raw = get_sim_data_raw(&data);

    let mut read_back = QCASimulationData::new();
    read_back.metadata.num_samples = 2;
    read_back.metadata.stored_cells = data.metadata.stored_cells.clone();
    read_sim_stream(&mut read_back, 2, &raw).unwrap();
    assert_eq!(read_back.cells_data[0].data, data.cells_data[0].data);
    assert_eq!(read_back.clock_data[3], vec![7, 8]);
}
