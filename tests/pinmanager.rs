#![allow(non_snake_case)]

use pinmux::compound::MatrixOutput;
use pinmux::error::PinError;
use pinmux::pinmanager::PinManager;
use pinmux::pins::GpioPins::{
    GPIO_01, GPIO_02, GPIO_03, GPIO_04, GPIO_05, GPIO_06, GPIO_08, GPIO_09, GPIO_10, GPIO_11,
    GPIO_12, GPIO_13,
};
use pinmux::pins::{GpioPins, PinValue};
use pinmux::port::{PinOccupant, Port, WritablePort};

fn manager() -> PinManager<MatrixOutput> {
    PinManager::new()
}

fn error_pins(e: PinError) -> Vec<GpioPins> {
    match e {
        PinError::DuplicatePins { duplicates } => duplicates,
        PinError::PinConflict { conflicts } => conflicts,
        other => panic!("unexpected error {:?}", other),
    }
}

#[test]
fn check_free_pins_pins_free() {
    let mut pinmanager = manager();
    pinmanager.clear();

    let check_result = pinmanager.check_free_pins(&vec![GPIO_01, GPIO_05, GPIO_11]);
    assert!(check_result.is_ok())
}

#[test]
fn register_OutputPort_Ok() {
    let mut pinmanager = manager();
    pinmanager.clear();
    let result = pinmanager.register_OutputPort(&vec![GPIO_01, GPIO_05, GPIO_11]);
    assert!(result.is_ok());
    let new_port = result.unwrap();
    assert!(new_port.get_PortFrame().len() == 3);
}

#[test]
fn register_OutputPort_misdefined_fail() {
    let mut pinmanager = manager();
    pinmanager.clear();
    let result_err =
        pinmanager.register_OutputPort(&vec![GPIO_01, GPIO_02, GPIO_06, GPIO_01, GPIO_13]);
    assert!(result_err.is_err());

    let error_pins = error_pins(result_err.unwrap_err());
    assert!(error_pins.len() == 1);
    assert!(error_pins.contains(&GPIO_01));
}

#[test]
fn register_OutputPort_conflict_fail() {
    let mut pinmanager = manager();
    pinmanager.clear();
    let result_ok = pinmanager.register_OutputPort(&vec![GPIO_01, GPIO_05, GPIO_11]);
    assert!(result_ok.is_ok());
    let result_err =
        pinmanager.register_OutputPort(&vec![GPIO_01, GPIO_02, GPIO_06, GPIO_11, GPIO_13]);
    assert!(result_err.is_err());

    let error_pins = error_pins(result_err.unwrap_err());
    assert!(error_pins.len() == 2);
    assert!(error_pins.contains(&GPIO_01));
    assert!(error_pins.contains(&GPIO_11));
}

#[test]
fn register_InputPort_Ok() {
    let mut pinmanager = manager();
    pinmanager.clear();
    let result = pinmanager.register_InputPort(&vec![GPIO_12, GPIO_10, GPIO_08, GPIO_06]);
    assert!(result.is_ok());
    let new_port = result.unwrap();
    assert!(new_port.get_PortFrame().len() == 4);
}

#[test]
fn register_InputPort_misdefined_fail() {
    let mut pinmanager = manager();
    pinmanager.clear();
    let result_err = pinmanager.register_InputPort(&vec![GPIO_04, GPIO_04, GPIO_04, GPIO_04]);
    assert!(result_err.is_err());

    let error_pins = error_pins(result_err.unwrap_err());
    assert!(error_pins.len() == 3);
    assert!(error_pins.contains(&GPIO_04));
}

#[test]
fn register_InputPort_conflict_fail() {
    let mut pinmanager = manager();
    pinmanager.clear();
    let result_ok = pinmanager.register_OutputPort(&vec![GPIO_12, GPIO_10, GPIO_08, GPIO_06]);
    assert!(result_ok.is_ok());
    let result_err =
        pinmanager.register_InputPort(&vec![GPIO_01, GPIO_02, GPIO_06, GPIO_11, GPIO_13]);
    assert!(result_err.is_err());

    let error_pins = error_pins(result_err.unwrap_err());
    assert!(error_pins.len() == 1);
    assert!(error_pins.contains(&GPIO_06));
}

#[test]
fn output_port_frame_starts_low() {
    let mut pinmanager = manager();
    let port = pinmanager.register_OutputPort(&vec![GPIO_04, GPIO_06, GPIO_09]).unwrap();
    assert_eq!(port.get_PortFrame(), &vec![PinValue::Low, PinValue::Low, PinValue::Low]);
    assert_eq!(port.get_occupied_pins(), vec![GPIO_04, GPIO_06, GPIO_09]);
}

#[test]
fn duplicate_set_names_repeated_pin_once_per_repeat() {
    let mut pinmanager = manager();
    let result = pinmanager.register_OutputPort(&vec![GPIO_12, GPIO_06, GPIO_12]);
    match result {
        Err(PinError::DuplicatePins { duplicates }) => assert_eq!(duplicates, vec![GPIO_12]),
        _ => panic!("expected a duplicate error"),
    }
    // nothing was claimed
    assert!(pinmanager.check_free_pins(&vec![GPIO_12, GPIO_06]).is_ok());
}

#[test]
fn duplicates_checked_before_conflicts() {
    let mut pinmanager = manager();
    pinmanager.register_OutputPort(&vec![GPIO_03]).unwrap();
    let result = pinmanager.register_InputPort(&vec![GPIO_03, GPIO_05, GPIO_05]);
    match result {
        Err(PinError::DuplicatePins { duplicates }) => assert_eq!(duplicates, vec![GPIO_05]),
        _ => panic!("expected a duplicate error"),
    }
}

#[test]
fn conflict_set_of_second_port() {
    let mut pinmanager = manager();
    assert!(pinmanager.register_OutputPort(&vec![GPIO_12, GPIO_06, GPIO_11, GPIO_03]).is_ok());
    let result = pinmanager.register_OutputPort(&vec![GPIO_12, GPIO_11, GPIO_03]);
    match result {
        Err(PinError::PinConflict { conflicts }) => {
            assert_eq!(conflicts, vec![GPIO_12, GPIO_11, GPIO_03])
        }
        _ => panic!("expected a conflict error"),
    }
}

#[test]
fn overlapping_registration_leaves_occupants() {
    let mut pinmanager = manager();
    pinmanager.register_OutputPort(&vec![GPIO_01, GPIO_02]).unwrap();
    assert!(pinmanager.register_InputPort(&vec![GPIO_02, GPIO_03]).is_err());
    // the refused port claimed nothing: its other pin is still free
    assert!(pinmanager.check_free_pins(&vec![GPIO_03]).is_ok());
    match pinmanager.check_free_pins(&vec![GPIO_03, GPIO_02, GPIO_01]) {
        Err(PinError::PinConflict { conflicts }) => assert_eq!(conflicts, vec![GPIO_01, GPIO_02]),
        _ => panic!("expected a conflict error"),
    }
}

#[test]
fn clear_then_register_same_pins_again() {
    let mut pinmanager = manager();
    pinmanager.register_OutputPort(&vec![GPIO_01, GPIO_02]).unwrap();
    pinmanager.register_InputPort(&vec![GPIO_03, GPIO_04]).unwrap();
    pinmanager.clear();
    assert!(pinmanager.register_OutputPort(&vec![GPIO_01, GPIO_02]).is_ok());
    assert!(pinmanager.register_InputPort(&vec![GPIO_03, GPIO_04]).is_ok());
}

#[test]
fn set_pin_state_out_of_range() {
    let mut pinmanager = manager();
    let mut port = pinmanager.register_OutputPort(&vec![GPIO_04, GPIO_06, GPIO_09]).unwrap();
    match port.set_pin_state(3, PinValue::High) {
        Err(PinError::IndexOutOfRange { index, len }) => {
            assert_eq!(index, 3);
            assert_eq!(len, 3);
        }
        _ => panic!("expected an index error"),
    }
    assert_eq!(port.get_PortFrame(), &vec![PinValue::Low, PinValue::Low, PinValue::Low]);
}

#[test]
fn set_pin_state_returns_previous() {
    let mut pinmanager = manager();
    let mut port = pinmanager.register_OutputPort(&vec![GPIO_04, GPIO_06, GPIO_09]).unwrap();
    assert_eq!(port.set_pin_state(1, PinValue::High).unwrap(), PinValue::Low);
    assert_eq!(port.set_pin_state(1, PinValue::Low).unwrap(), PinValue::High);
    assert_eq!(port.set_pin_state(2, PinValue::High).unwrap(), PinValue::Low);
    assert_eq!(port.get_PortFrame(), &vec![PinValue::Low, PinValue::Low, PinValue::High]);
}

#[test]
fn set_frame_length_mismatch() {
    let mut pinmanager = manager();
    let mut port = pinmanager.register_OutputPort(&vec![GPIO_04, GPIO_06]).unwrap();
    match port.set_PortFrame(vec![PinValue::High]) {
        Err(PinError::LengthMismatch { expected, found }) => {
            assert_eq!(expected, 2);
            assert_eq!(found, 1);
        }
        _ => panic!("expected a length error"),
    }
    assert!(port.set_PortFrame(vec![PinValue::High, PinValue::Low]).is_ok());
    assert_eq!(port.get_PortFrame(), &vec![PinValue::High, PinValue::Low]);
}

#[test]
fn input_port_reports_changes_only() {
    let mut pinmanager = manager();
    let mut port = pinmanager.register_InputPort(&vec![GPIO_04, GPIO_06]).unwrap();
    let first = port.update_frame(vec![PinValue::Low, PinValue::Low]).unwrap();
    assert!(first.is_none());
    let second = port.update_frame(vec![PinValue::High, PinValue::Low]).unwrap();
    assert_eq!(second, Some(vec![PinValue::Low, PinValue::Low]));
    assert_eq!(port.get_PortFrame(), &vec![PinValue::High, PinValue::Low]);
    assert!(port.update_frame(vec![PinValue::High]).is_err());
    assert_eq!(port.get_PortFrame(), &vec![PinValue::High, PinValue::Low]);
}
