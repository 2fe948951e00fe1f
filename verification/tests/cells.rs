use qca_core::architecture::QCACellArchitecture;
use qca_core::cell::{clock_phase_index, CellType, QCACell, QCACellIndex};
use qca_core::layer::{get_num_inputs, recorded_cell_indexes, QCALayer};

fn cell(typ: CellType) -> QCACell {
    QCACell {
        typ,
        clock_phase_shift: 0,
        dot_probability_distribution: vec![500_000; 4],
        label: None,
    }
}

#[test]
fn cell_index_orders_by_layer_then_cell() {
    let a = QCACellIndex::new(1, 2);
    assert_eq!(a.layer, 1);
    assert_eq!(a.cell, 2);
    assert_eq!(a, QCACellIndex::new(1, 2));
    assert_ne!(a, QCACellIndex::new(2, 1));
}

#[test]
fn cell_index_text_round_trip() {
    let a = QCACellIndex::new(3, 17);
    assert_eq!(a.to_text(), "3-17");
    let parsed = QCACellIndex::parse_text("3-17").unwrap();
    assert_eq!(parsed, a);
    assert_eq!(QCACellIndex::parse_text("0-0").unwrap(), QCACellIndex::new(0, 0));
}

#[test]
fn cell_index_parse_rejects_malformed_text() {
    assert!(QCACellIndex::parse_text("abc").is_err());
    assert!(QCACellIndex::parse_text("1-2-3").is_err());
    assert!(QCACellIndex::parse_text("x-2").is_err());
    assert!(QCACellIndex::parse_text("1-").is_err());
    assert!(QCACellIndex::parse_text("-2").is_err());
    assert!(QCACellIndex::parse_text("").is_err());
    // std's integer parser takes a leading plus sign.
    assert_eq!(QCACellIndex::parse_text("+1-2").unwrap(), QCACellIndex::new(1, 2));
}

#[test]
fn clock_phase_maps_to_quarter_turns() {
    assert_eq!(clock_phase_index(0), 0);
    assert_eq!(clock_phase_index(90), 1);
    assert_eq!(clock_phase_index(180), 2);
    assert_eq!(clock_phase_index(270), 3);
    assert_eq!(clock_phase_index(360), 0);
    assert_eq!(clock_phase_index(450), 1);
    assert_eq!(clock_phase_index(-90), 3);
    assert_eq!(clock_phase_index(95), 1);
}

#[test]
fn architecture_builds_the_tunneling_ring() {
    let arch = QCACellArchitecture::new(8);
    assert_eq!(arch.dot_count, 8);
    assert_eq!(arch.dot_tunnels.len(), 8);
    assert_eq!(arch.dot_tunnels[0], (7, 1));
    assert_eq!(arch.dot_tunnels[3], (2, 4));
    assert_eq!(arch.dot_tunnels[7], (6, 0));
}

#[test]
fn recorded_cells_are_inputs_and_outputs_in_order() {
    let mut layer0 = QCALayer::new("main".to_string(), "arch".to_string());
    layer0.cells = vec![
        cell(CellType::Input),
        cell(CellType::Normal),
        cell(CellType::Output),
        cell(CellType::Fixed),
    ];
    let mut layer1 = QCALayer::new("top".to_string(), "arch".to_string());
    layer1.cells = vec![cell(CellType::Output), cell(CellType::Input)];
    let layers = vec![layer0, layer1];
    let recorded = recorded_cell_indexes(&layers);
    assert_eq!(
        recorded,
        vec![
            QCACellIndex::new(0, 0),
            QCACellIndex::new(0, 2),
            QCACellIndex::new(1, 0),
            QCACellIndex::new(1, 1),
        ]
    );
    assert_eq!(get_num_inputs(&layers), 2);
}

#[test]
fn cell_index_parse_rejects_out_of_range_numbers() {
    // One digit beyond the machine word.
    assert!(QCACellIndex::parse_text("18446744073709551616-1").is_err());
    assert_eq!(
        QCACellIndex::parse_text("18446744073709551615-1").unwrap(),
        QCACellIndex::new(usize::MAX, 1)
    );
}

#[test]
fn four_dot_architecture_ring() {
    let arch = QCACellArchitecture::new(4);
    assert_eq!(arch.dot_tunnels, vec![(3, 1), (0, 2), (1, 3), (2, 0)]);
}
