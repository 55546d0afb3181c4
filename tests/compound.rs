#![allow(non_snake_case)]

use pinmux::compound::MatrixOutput;
use pinmux::error::PinError;
use pinmux::pinmanager::{ActivePort, PinManager};
use pinmux::pins::GpioPins::{
    GPIO_03, GPIO_04, GPIO_05, GPIO_06, GPIO_07, GPIO_09, GPIO_11, GPIO_12, GPIO_15, GPIO_19,
    GPIO_24,
};
use pinmux::pins::PinValue::{High, Low};
use pinmux::port::{PinOccupant, Port};

fn manager() -> PinManager<MatrixOutput> {
    PinManager::new()
}

#[test]
fn new_MatrixOutput_ok() {
    let mut pinmanager = manager();
    pinmanager.clear();

    let matrix_output_result = MatrixOutput::new(
        &mut pinmanager,
        &vec![GPIO_12, GPIO_06, GPIO_09],
        &vec![GPIO_04, GPIO_24, GPIO_19, GPIO_15],
        false,
        true,
    );
    assert!(matrix_output_result.is_ok());
    let matrix_output = &matrix_output_result.unwrap();

    assert!(matrix_output.input_port().get_occupied_pins().len() == 3);
    assert!(matrix_output.input_is_demultiplexed() == false);

    assert!(matrix_output.output_port().get_occupied_pins().len() == 4);
    assert!(matrix_output.output_is_demultiplexed() == true);
}

#[test]
fn new_MatrixOutput_conflict_in_port_fail() {
    let mut pinmanager = manager();
    pinmanager.clear();

    let matrix_output_result = MatrixOutput::new(
        &mut pinmanager,
        &vec![GPIO_12, GPIO_06, GPIO_12],
        &vec![GPIO_04, GPIO_15],
        false,
        false,
    );
    assert!(matrix_output_result.is_err());
    match matrix_output_result.err().unwrap() {
        PinError::DuplicatePins { duplicates } => assert!(duplicates.contains(&GPIO_12)),
        other => panic!("unexpected error {:?}", other),
    }
}

#[test]
fn new_MatrixOutput_conflict_between_ports_fail() {
    let mut pinmanager = manager();
    pinmanager.clear();

    let matrix_output_result = MatrixOutput::new(
        &mut pinmanager,
        &vec![GPIO_12, GPIO_06, GPIO_11, GPIO_03],
        &vec![GPIO_12, GPIO_11, GPIO_03],
        false,
        false,
    );
    assert!(matrix_output_result.is_err());

    let conflict_pins = match matrix_output_result.err().unwrap() {
        PinError::PinConflict { conflicts } => conflicts,
        other => panic!("unexpected error {:?}", other),
    };
    assert!(conflict_pins.contains(&GPIO_03));
    assert!(conflict_pins.contains(&GPIO_11));
    assert!(conflict_pins.contains(&GPIO_12));
}

#[test]
fn matrix_failure_claims_nothing() {
    let mut pinmanager = manager();
    let result =
        MatrixOutput::new(&mut pinmanager, &vec![GPIO_12, GPIO_06], &vec![GPIO_06], false, false);
    assert!(result.is_err());
    assert!(pinmanager.check_free_pins(&vec![GPIO_12, GPIO_06]).is_ok());
}

#[test]
fn matrix_conflicts_with_claimed_pins() {
    let mut pinmanager = manager();
    pinmanager.register_OutputPort(&vec![GPIO_15]).unwrap();
    let result =
        MatrixOutput::new(&mut pinmanager, &vec![GPIO_03], &vec![GPIO_04, GPIO_15], false, false);
    match result.err().unwrap() {
        PinError::PinConflict { conflicts } => assert_eq!(conflicts, vec![GPIO_15]),
        other => panic!("unexpected error {:?}", other),
    }
}

#[test]
fn matrix_pins_are_claimed() {
    let mut pinmanager = manager();
    let matrix =
        MatrixOutput::new(&mut pinmanager, &vec![GPIO_03, GPIO_05], &vec![GPIO_07], false, false)
            .unwrap();
    assert_eq!(matrix.get_occupied_pins(), vec![GPIO_03, GPIO_05, GPIO_07]);
    assert!(pinmanager.register_OutputPort(&vec![GPIO_05]).is_err());
}

#[test]
fn matrix_cells_are_independent() {
    let mut pinmanager = manager();
    let mut matrix = MatrixOutput::new(
        &mut pinmanager,
        &vec![GPIO_12, GPIO_06, GPIO_09],
        &vec![GPIO_04, GPIO_24, GPIO_19, GPIO_15],
        false,
        false,
    )
    .unwrap();
    assert_eq!(matrix.cell_count(), 12);
    assert!(matrix.set_logical_value(1, 2, High).is_ok());
    assert_eq!(matrix.get_logical_value(1, 2).unwrap(), High);
    for i in 0..3 {
        for o in 0..4 {
            if (i, o) != (1, 2) {
                assert_eq!(matrix.get_logical_value(i, o).unwrap(), Low);
            }
        }
    }
}

#[test]
fn matrix_index_errors() {
    let mut pinmanager = manager();
    let mut matrix = MatrixOutput::new(
        &mut pinmanager,
        &vec![GPIO_12, GPIO_06, GPIO_09],
        &vec![GPIO_04, GPIO_24, GPIO_19, GPIO_15],
        false,
        false,
    )
    .unwrap();
    match matrix.set_logical_value(3, 0, High) {
        Err(PinError::IndexOutOfRange { index, len }) => assert_eq!((index, len), (3, 3)),
        _ => panic!("expected an index error"),
    }
    match matrix.get_logical_value(0, 4) {
        Err(PinError::IndexOutOfRange { index, len }) => assert_eq!((index, len), (4, 4)),
        _ => panic!("expected an index error"),
    }
}

#[test]
fn direct_scan_shows_rows_in_turn() {
    let mut pinmanager = manager();
    let mut matrix = MatrixOutput::new(
        &mut pinmanager,
        &vec![GPIO_12, GPIO_06],
        &vec![GPIO_04, GPIO_24, GPIO_19],
        false,
        false,
    )
    .unwrap();
    matrix.set_logical_value(0, 1, High).unwrap();
    matrix.set_logical_value(1, 2, High).unwrap();
    pinmanager.add_active_port(matrix);

    pinmanager.activate_active_ports();
    let m = pinmanager.active_port(0);
    assert_eq!(m.input_port().get_PortFrame(), &vec![High, Low]);
    assert_eq!(m.output_port().get_PortFrame(), &vec![Low, High, Low]);

    pinmanager.activate_active_ports();
    let m = pinmanager.active_port(0);
    assert_eq!(m.input_port().get_PortFrame(), &vec![Low, High]);
    assert_eq!(m.output_port().get_PortFrame(), &vec![Low, Low, High]);

    pinmanager.activate_active_ports();
    let m = pinmanager.active_port(0);
    assert_eq!(m.input_port().get_PortFrame(), &vec![High, Low]);
}

#[test]
fn demultiplexed_scan_encodes_addresses() {
    let mut pinmanager = manager();
    let mut matrix = MatrixOutput::new(
        &mut pinmanager,
        &vec![GPIO_12, GPIO_06, GPIO_09],
        &vec![GPIO_04, GPIO_24],
        true,
        true,
    )
    .unwrap();
    // scan step 5 is row 2, column 1
    matrix.set_logical_value(2, 1, High).unwrap();
    pinmanager.add_active_port(matrix);
    for _ in 0..5 {
        pinmanager.activate_active_ports();
    }
    let m = pinmanager.active_port(0);
    assert_eq!(m.input_port().get_PortFrame(), &vec![Low, High, Low]);
    assert_eq!(m.output_port().get_PortFrame(), &vec![Low, Low]);

    pinmanager.activate_active_ports();
    let m = pinmanager.active_port(0);
    assert_eq!(m.input_port().get_PortFrame(), &vec![Low, High, Low]);
    assert_eq!(m.output_port().get_PortFrame(), &vec![High, Low]);
}

#[test]
fn paused_and_stopped_ports_are_skipped() {
    let mut pinmanager = manager();
    let matrix =
        MatrixOutput::new(&mut pinmanager, &vec![GPIO_12, GPIO_06], &vec![GPIO_04], false, false)
            .unwrap();
    pinmanager.add_active_port(matrix);
    pinmanager.active_port_mut(0).pause(true);
    pinmanager.activate_active_ports();
    assert_eq!(pinmanager.active_port(0).input_port().get_PortFrame(), &vec![Low, Low]);

    pinmanager.active_port_mut(0).pause(false);
    pinmanager.activate_active_ports();
    assert_eq!(pinmanager.active_port(0).input_port().get_PortFrame(), &vec![High, Low]);

    pinmanager.active_port_mut(0).stop();
    assert!(pinmanager.active_port(0).is_stopped());
    pinmanager.activate_active_ports();
    assert_eq!(pinmanager.active_port(0).input_port().get_PortFrame(), &vec![High, Low]);

    pinmanager.clear();
    assert_eq!(pinmanager.active_port_count(), 0);
}
